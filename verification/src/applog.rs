//! Where the log lies, and when it is moved aside.

use vstd::prelude::*;

use crate::platform::paths;
use crate::platform::paths::{is_absolute, join};
use crate::platform::Host;
use crate::text;

verus! {

/// The size past which the log is moved aside, in bytes.
pub const MAX_LOG_BYTES: u64 = 8_388_608;

/// The number of writes from one look at the size to the next.
pub const SIZE_CHECK_EVERY: u64 = 512;

/// What decides where the log lies.
pub struct LogPlaces {
    pub host: Host,
    /// The directory of state, as the environment has it.
    pub state_home: Option<String>,
    pub home: Option<String>,
    /// The directory of logs, where the system has one.
    pub logs: Option<String>,
    /// The directory of temporary files.
    pub temp: String,
}

/// The directory of the log. On Linux it is that of state, which no cleaner
/// empties; elsewhere that of logs; and where there is none, that of temporary
/// files.
pub open spec fn dir_of(p: LogPlaces) -> Seq<char> {
    match p.host {
        Host::Linux => paths::joined(
            match (text::maybe(p.state_home), text::maybe(p.home)) {
                (Some(s), h) if s.len() > 0 && s[0] == '/' => s,
                (_, Some(h)) => paths::joined(h, ".local/state"@),
                (_, None) => p.temp@,
            },
            "vortex"@,
        ),
        _ => match p.logs {
            Some(l) => l@,
            None => paths::joined(p.temp@, "vortex"@),
        },
    }
}

/// The directory of the log.
pub fn log_dir(p: &LogPlaces) -> (r: String)
    ensures
        r@ == dir_of(*p),
{
    match p.host {
        Host::Linux => {
            match &p.state_home {
                Some(s) => {
                    if is_absolute(s.as_str()) {
                        return join(s.as_str(), "vortex");
                    }
                },
                None => {},
            }
            match &p.home {
                Some(h) => join(join(h.as_str(), ".local/state").as_str(), "vortex"),
                None => join(p.temp.as_str(), "vortex"),
            }
        },
        _ => match &p.logs {
            Some(l) => l.as_str().to_string(),
            None => join(p.temp.as_str(), "vortex"),
        },
    }
}

/// The file of the log.
pub fn log_path(p: &LogPlaces) -> (r: String)
    ensures
        r@ == paths::joined(dir_of(*p), "vortex.log"@),
{
    join(log_dir(p).as_str(), "vortex.log")
}

/// Where a log that has grown too large is moved.
pub fn old_log_path(p: &LogPlaces) -> (r: String)
    ensures
        r@ == paths::joined(dir_of(*p), "vortex.log.1"@),
{
    join(log_dir(p).as_str(), "vortex.log.1")
}

/// Whether a log of this size is too large; one whose size is not known is not.
pub fn is_too_large(size: Option<u64>) -> (r: bool)
    ensures
        r == (size is Some && size->0 > MAX_LOG_BYTES),
{
    match size {
        Some(n) => n > MAX_LOG_BYTES,
        None => false,
    }
}

/// Counts the writes to the log.
pub struct Tee {
    pub writes: u64,
}

impl Tee {
    /// Nothing was written yet.
    pub fn new() -> (r: Self)
        ensures
            r.writes == 0,
    {
        Tee { writes: 0 }
    }

    /// Something is about to be written to a log of this size: whether to move it
    /// aside first. The size matters only now and then.
    pub fn rotates(&mut self, size: Option<u64>) -> (r: bool)
        ensures
            r == (old(self).writes % SIZE_CHECK_EVERY == 0 && size is Some && size->0
                > MAX_LOG_BYTES),
            final(self).writes == if old(self).writes == u64::MAX {
                0
            } else {
                old(self).writes + 1
            },
    {
        let looks = self.writes % SIZE_CHECK_EVERY == 0;
        self.writes =
        if self.writes == u64::MAX {
            0
        } else {
            self.writes + 1
        };
        looks && is_too_large(size)
    }
}

/// Where the log lies: below the directory of state on Linux, where that is an absolute path,
/// else below the home directory; elsewhere in the directory of logs; and below that of
/// temporary files where there is none.
pub proof fn lemma_where_the_log_lies(p: LogPlaces)
    requires
        p.home is Some ==> p.home->0@.len() > 0 && p.home->0@.last() != '/',
        p.state_home is Some ==> p.state_home->0@.len() > 0 && p.state_home->0@.last() != '/',
        p.temp@.len() > 0 && p.temp@.last() != '/',
    ensures
        p.host is Linux && p.state_home is Some && p.state_home->0@[0] == '/' ==> dir_of(p)
            == p.state_home->0@ + seq!['/'] + "vortex"@,
        p.host is Linux && (p.state_home is None || p.state_home->0@[0] != '/') && p.home is Some
            ==> dir_of(p) == p.home->0@ + seq!['/'] + ".local/state"@ + seq!['/'] + "vortex"@,
        p.host is Linux && (p.state_home is None || p.state_home->0@[0] != '/') && p.home is None
            ==> dir_of(p) == p.temp@ + seq!['/'] + "vortex"@,
        !(p.host is Linux) && p.logs is Some ==> dir_of(p) == p.logs->0@,
        !(p.host is Linux) && p.logs is None ==> dir_of(p) == p.temp@ + seq!['/'] + "vortex"@,
{
    reveal_strlit(".local/state");
    reveal_strlit("vortex");
    assert(".local/state"@[0] != '/' && ".local/state"@.last() != '/');
    assert("vortex"@[0] != '/');
    if p.home is Some {
        let base = p.home->0@ + seq!['/'] + ".local/state"@;
        assert(base.last() == ".local/state"@.last());
    }
}

/// The log is looked at every 512 writes, and moved aside when it is larger than eight
/// mebibytes. A log whose size is not known stays.
pub proof fn lemma_when_the_log_is_moved(t: &mut Tee, size: Option<u64>, r: bool, large: bool)
    requires
        call_ensures(Tee::rotates, (t, size), r),
        call_ensures(is_too_large, (size,), large),
    ensures
        large <==> size is Some && size->0 > 8_388_608,
        r ==> large && old(t).writes % 512 == 0,
        large && old(t).writes % 512 == 0 ==> r,
        old(t).writes < u64::MAX ==> final(t).writes == old(t).writes + 1,
{
}

/// The log and the one before it lie side by side.
pub proof fn lemma_names_of_the_logs(p: &LogPlaces, now: String, before: String)
    requires
        call_ensures(log_path, (p,), now),
        call_ensures(old_log_path, (p,), before),
        dir_of(*p).len() > 0 && dir_of(*p).last() != '/',
    ensures
        now@ == dir_of(*p) + seq!['/'] + "vortex.log"@,
        before@ == dir_of(*p) + seq!['/'] + "vortex.log.1"@,
{
    assert(dir_of(*p).push('/') =~= dir_of(*p) + seq!['/']);
}

} // verus!
