//! Do Not Disturb, shared with the phone.
//!
//! Both devices hold the setting together with the time of its last change, and
//! the later change wins. A device that never changed it has no opinion. The
//! setting is written down, so that a restart does not make an old opinion of the
//! other side look new.

use vstd::prelude::*;

use crate::platform::paths;
use crate::platform::paths::join;
use crate::text;
use crate::text::{
    contains, decimal_text, parse_unsigned, same_text, split_behind, split_once, trim,
    trim_end_char,
};

verus! {

/// The shared setting, and when it was last changed on purpose, in seconds since
/// the epoch; never is zero.
#[derive(Debug, Clone, Copy, PartialEq, Eq, Structural)]
pub struct Dnd {
    pub on: bool,
    pub changed_at: u64,
}

/// The setting as it is sent to the phone.
pub fn state(d: &Dnd) -> (r: (bool, u64))
    ensures
        r == (d.on, d.changed_at),
{
    (d.on, d.changed_at)
}

/// The setting of the desktop itself, by what its settings say of banners, which
/// are the opposite of Do Not Disturb, or else by whether its notification service
/// says that notifications are inhibited. A desktop that says neither has none.
pub fn read_desktop(banners: &Option<String>, inhibited: Option<bool>) -> (r: Option<bool>)
    ensures
        r == match *banners {
            Some(v) => Some(v@ == "false"@),
            None => inhibited,
        },
{
    match banners {
        Some(v) => Some(same_text(v.as_str(), "false")),
        None => inhibited,
    }
}

/// What the desktop's setting of banners becomes.
pub fn banner_value(on: bool) -> (r: String)
    ensures
        r@ == if on {
            "false"@
        } else {
            "true"@
        },
{
    if on {
        "false".to_string()
    } else {
        "true".to_string()
    }
}

/// The time with which a change here is stamped: now, but always later than the
/// last one, so that the change is never discarded.
pub open spec fn stamp(now: u64, last: u64) -> u64 {
    if now > last {
        now
    } else {
        (last + 1) as u64
    }
}

/// The user changed the setting on this laptop.
pub fn note_local_change(d: &mut Dnd, on: bool, now: u64)
    requires
        old(d).changed_at < u64::MAX,
    ensures
        *final(d) == (Dnd { on, changed_at: stamp(now, old(d).changed_at) }),
        final(d).changed_at > old(d).changed_at,
{
    d.on = on;
    d.changed_at =
    if now > d.changed_at {
        now
    } else {
        d.changed_at + 1
    };
}

/// What the phone's setting leads to.
#[derive(Debug, Clone, Copy, PartialEq, Eq, Structural)]
pub enum PeerAction {
    /// It is not newer: nothing.
    Ignore,
    /// It is newer, and the desktop has it already: write it down.
    Keep,
    /// It is newer: write it down, and set the desktop.
    Apply,
}

/// What the phone's setting leads to. `desktop` is what the desktop says now.
pub open spec fn peer_step(d: Dnd, on: bool, changed_at: u64, desktop: Option<bool>) -> (
    Dnd,
    PeerAction,
) {
    if changed_at == 0 || changed_at <= d.changed_at {
        (d, PeerAction::Ignore)
    } else {
        (
            Dnd { on, changed_at },
            if d.on == on && desktop == Some(on) {
                PeerAction::Keep
            } else {
                PeerAction::Apply
            },
        )
    }
}

/// Takes note of the phone's setting: it wins when it is strictly newer.
pub fn apply_peer(d: &mut Dnd, on: bool, changed_at: u64, desktop: Option<bool>) -> (r: PeerAction)
    ensures
        (*final(d), r) == peer_step(*old(d), on, changed_at, desktop),
{
    if changed_at == 0 || changed_at <= d.changed_at {
        return PeerAction::Ignore;
    }
    let there = d.on == on && (match desktop {
        Some(now) => now == on,
        None => false,
    });
    d.on = on;
    d.changed_at = changed_at;
    if there {
        PeerAction::Keep
    } else {
        PeerAction::Apply
    }
}

/// The two devices come to agree: once each has heard of the other, both hold the
/// setting with the later stamp.
pub proof fn lemma_later_change_wins(
    a: Dnd,
    b: Dnd,
    desktop_a: Option<bool>,
    desktop_b: Option<bool>,
)
    requires
        a.changed_at != b.changed_at,
    ensures
        peer_step(a, b.on, b.changed_at, desktop_a).0 == peer_step(
            b,
            a.on,
            a.changed_at,
            desktop_b,
        ).0,
        a.changed_at > b.changed_at ==> peer_step(a, b.on, b.changed_at, desktop_a).0 == a,
{
}

/// One report of the phone: its setting, the time of that setting's last change,
/// and what the desktop says when the report comes.
pub struct Snapshot {
    pub on: bool,
    pub changed_at: u64,
    pub desktop: Option<bool>,
}

/// The setting after a run of reports of the phone.
pub open spec fn after_snapshots(d: Dnd, run: Seq<Snapshot>) -> Dnd
    decreases run.len(),
{
    if run.len() == 0 {
        d
    } else {
        let s = run.last();
        peer_step(after_snapshots(d, run.drop_last()), s.on, s.changed_at, s.desktop).0
    }
}

/// Of several reports, in whatever order they come and however often, the one with
/// the latest change wins, and of several with that change the first. Where none is
/// later than the setting here, that one stays.
pub proof fn lemma_latest_snapshot_wins(d: Dnd, run: Seq<Snapshot>)
    ensures
        ({
            let end = after_snapshots(d, run);
            &&& d.changed_at <= end.changed_at
            &&& forall|i: int| 0 <= i < run.len() ==> (#[trigger] run[i]).changed_at <= end.changed_at
            &&& end == d || exists|i: int|
                {
                    &&& 0 <= i < run.len()
                    &&& end == (Dnd { on: (#[trigger] run[i]).on, changed_at: run[i].changed_at })
                    &&& d.changed_at < run[i].changed_at
                    &&& forall|j: int| 0 <= j < i ==> (#[trigger] run[j]).changed_at
                        < run[i].changed_at
                }
        }),
    decreases run.len(),
{
    if run.len() > 0 {
        let before = run.drop_last();
        let mid = after_snapshots(d, before);
        let s = run.last();
        let end = after_snapshots(d, run);
        lemma_latest_snapshot_wins(d, before);
        assert forall|i: int| 0 <= i < run.len() implies (#[trigger] run[i]).changed_at
            <= end.changed_at by {
            if i < before.len() {
                assert(before[i].changed_at <= mid.changed_at);
            }
        }
        let n = run.len() - 1;
        if s.changed_at != 0 && s.changed_at > mid.changed_at {
            assert forall|j: int| 0 <= j < n implies (#[trigger] run[j]).changed_at
                < run[n].changed_at by {
                assert(before[j].changed_at <= mid.changed_at);
            }
            assert(end == (Dnd { on: run[n].on, changed_at: run[n].changed_at }));
        } else if end != d {
            let i = choose|i: int|
                {
                    &&& 0 <= i < before.len()
                    &&& mid == (Dnd { on: (#[trigger] before[i]).on, changed_at: before[i].changed_at })
                    &&& d.changed_at < before[i].changed_at
                    &&& forall|j: int| 0 <= j < i ==> (#[trigger] before[j]).changed_at
                        < before[i].changed_at
                };
            assert(run[i] == before[i]);
            assert forall|j: int| 0 <= j < i implies (#[trigger] run[j]).changed_at
                < run[i].changed_at by {
                assert(before[j].changed_at < before[i].changed_at);
            }
            assert(end == (Dnd { on: run[i].on, changed_at: run[i].changed_at }));
        }
    }
}

/// A report that was heard already changes nothing when it comes again.
pub proof fn lemma_repeated_snapshot_is_ignored(d: Dnd, run: Seq<Snapshot>, i: int, again: Snapshot)
    requires
        0 <= i < run.len(),
        again.on == run[i].on,
        again.changed_at == run[i].changed_at,
    ensures
        after_snapshots(d, run.push(again)) == after_snapshots(d, run),
{
    lemma_latest_snapshot_wins(d, run);
    assert(run[i].changed_at <= after_snapshots(d, run).changed_at);
    assert(run.push(again).drop_last() =~= run);
}

/// A device that never changed the setting has no opinion, and never changes the
/// other one's.
pub proof fn lemma_no_opinion(d: Dnd, on: bool, desktop: Option<bool>)
    ensures
        peer_step(d, on, 0, desktop) == (d, PeerAction::Ignore),
{
}

/// The setting at the start of the program, given what the desktop says and what
/// was written down: the second value tells whether that is a change, made while
/// nobody was looking. Without a setting on the desktop there is nothing to share.
pub open spec fn resumed(desktop: Option<bool>, saved: Option<(bool, u64)>, now: u64) -> Option<
    (Dnd, bool),
> {
    match desktop {
        None => None,
        Some(initial) => match saved {
            Some((on, at)) if at > 0 => Some(
                if initial != on {
                    (Dnd { on: initial, changed_at: stamp(now, at) }, true)
                } else {
                    (Dnd { on, changed_at: at }, false)
                },
            ),
            _ => Some((Dnd { on: initial, changed_at: 0 }, false)),
        },
    }
}

/// The setting at the start of the program.
pub fn resume(desktop: Option<bool>, saved: Option<(bool, u64)>, now: u64) -> (r: Option<(Dnd, bool)>)
    requires
        saved matches Some(s) ==> s.1 < u64::MAX,
    ensures
        r == resumed(desktop, saved, now),
{
    match desktop {
        None => None,
        Some(initial) => {
            match saved {
                Some((on, at)) => {
                    if at > 0 {
                        let mut d = Dnd { on, changed_at: at };
                        if initial != on {
                            note_local_change(&mut d, initial, now);
                            return Some((d, true));
                        }
                        return Some((d, false));
                    }
                },
                None => {},
            }
            Some((Dnd { on: initial, changed_at: 0 }, false))
        },
    }
}

/// A restart resumes the setting: where the desktop still has what was written
/// down, an older opinion of the phone does not win over it.
pub proof fn lemma_restart_resumes(on: bool, at: u64, now: u64, peer_on: bool, peer_at: u64)
    requires
        at > 0,
        peer_at <= at,
    ensures
        resumed(Some(on), Some((on, at)), now) == Some((Dnd { on, changed_at: at }, false)),
        peer_step(Dnd { on, changed_at: at }, peer_on, peer_at, Some(on)).1 is Ignore,
{
}

/// What a line of the monitor of the desktop's settings says.
pub open spec fn line_says(line: Seq<char>) -> Option<bool> {
    let n = text::first_of(line, ':');
    if n < line.len() {
        Some(text::trimmed(line.skip(n + 1)) != "true"@)
    } else {
        None
    }
}

/// Takes note of a line of the monitor of the desktop's settings. Returns whether
/// the user changed the setting.
pub fn on_monitor_line(d: &mut Dnd, line: &str, now: u64) -> (changed: bool)
    requires
        old(d).changed_at < u64::MAX,
    ensures
        changed == (line_says(line@) is Some && line_says(line@)->0 != old(d).on),
        *final(d) == if changed {
            Dnd { on: line_says(line@)->0, changed_at: stamp(now, old(d).changed_at) }
        } else {
            *old(d)
        },
{
    proof {
        text::lemma_first_of(line@, ':');
    }
    match split_once(line, ':') {
        Some((_, v)) => {
            let says = !same_text(trim(v.as_str()).as_str(), "true");
            reconcile(d, Some(says), now)
        },
        None => false,
    }
}

/// Compares the setting with that of the desktop. Returns whether the user changed
/// it.
pub fn reconcile(d: &mut Dnd, desktop: Option<bool>, now: u64) -> (changed: bool)
    requires
        old(d).changed_at < u64::MAX,
    ensures
        changed == (desktop is Some && desktop->0 != old(d).on),
        *final(d) == if changed {
            Dnd { on: desktop->0, changed_at: stamp(now, old(d).changed_at) }
        } else {
            *old(d)
        },
{
    match desktop {
        Some(on) => {
            if on != d.on {
                note_local_change(d, on, now);
                true
            } else {
                false
            }
        },
        None => false,
    }
}

/// Where the setting is written down.
pub fn store_path(config_home: Option<String>, home: Option<String>) -> (r: Option<String>)
    ensures
        text::maybe(r) == match (config_home, home) {
            (Some(c), _) => Some(paths::joined(paths::joined(c@, "vortex"@), "dnd.json"@)),
            (None, Some(h)) => Some(
                paths::joined(
                    paths::joined(paths::joined(h@, ".config"@), "vortex"@),
                    "dnd.json"@,
                ),
            ),
            (None, None) => None,
        },
{
    let base = match config_home {
        Some(c) => c,
        None => match home {
            Some(h) => join(h.as_str(), ".config"),
            None => return None,
        },
    };
    Some(join(join(base.as_str(), "vortex").as_str(), "dnd.json"))
}

/// What the setting looks like up to the time of its change.
pub open spec fn written_head(on: bool) -> Seq<char> {
    if on {
        "{\n  \"on\": true,\n  \"changed_at\": "@
    } else {
        "{\n  \"on\": false,\n  \"changed_at\": "@
    }
}

/// The setting as it is written down.
pub open spec fn written(on: bool, at: u64) -> Seq<char> {
    written_head(on) + text::decimal(at as nat) + "\n}\n"@
}

/// The setting as it is written down.
pub fn save_persisted(on: bool, at: u64) -> (r: String)
    ensures
        r@ == written(on, at),
{
    let mut m = (if on {
        "{\n  \"on\": true,\n  \"changed_at\": "
    } else {
        "{\n  \"on\": false,\n  \"changed_at\": "
    }).to_string();
    m.append(decimal_text(at).as_str());
    m.append("\n}\n");
    m
}

/// What a written setting reads as.
pub open spec fn read_back(raw: Seq<char>) -> Option<(bool, u64)> {
    match text::piece_behind(raw, "\"changed_at\":"@) {
        None => None,
        Some(piece) => {
            let number = text::trimmed(text::without_ending(text::trimmed(piece), '}'));
            match text::parsed_unsigned(number, u64::MAX as nat) {
                Some(at) => Some((text::contains_text(raw, "\"on\": true"@), at as u64)),
                None => None,
            }
        },
    }
}

/// Reads a written setting.
pub fn load_persisted(raw: &str) -> (r: Option<(bool, u64)>)
    ensures
        r == read_back(raw@),
{
    let on = contains(raw, "\"on\": true");
    match split_behind(raw, "\"changed_at\":") {
        None => None,
        Some(piece) => {
            let inner = trim_end_char(trim(piece.as_str()).as_str(), '}');
            match parse_unsigned(trim(inner.as_str()).as_str(), u64::MAX) {
                Some(at) => Some((on, at)),
                None => None,
            }
        },
    }
}

/// Where the key stands in what is written.
proof fn lemma_head(on: bool)
    ensures
        ({
            let h = written_head(on);
            let key = "\"changed_at\":"@;
            let n = h.len() - 14;
            &&& h.len() == if on {
                32nat
            } else {
                33nat
            }
            &&& key.len() == 13
            &&& h.subrange(n, n + 13) == key
            &&& h.last() == ' '
            &&& forall|i: int| 0 <= i < h.len() ==> ((#[trigger] h[i] == '"' && i + 1 < h.len() && h[i + 1]
                == 'c') ==> i == n)
            &&& forall|i: int| 0 <= i < h.len() ==> ((#[trigger] h[i] == '"' && i + 1 < h.len() && h[i + 1]
                == 'o') ==> i == 4)
            &&& h[h.len() - 1] != '"'
            &&& on ==> h.subrange(4, 14) == "\"on\": true"@
            &&& !on ==> h[10] == 'f'
        }),
{
    reveal_strlit("{\n  \"on\": true,\n  \"changed_at\": ");
    reveal_strlit("{\n  \"on\": false,\n  \"changed_at\": ");
    reveal_strlit("\"changed_at\":");
    reveal_strlit("\"on\": true");
    let h = written_head(on);
    let n = h.len() - 14;
    assert(h.subrange(n, n + 13) =~= "\"changed_at\":"@);
    if on {
        assert(h.subrange(4, 14) =~= "\"on\": true"@);
    }
    assert forall|i: int| 0 <= i < h.len() implies ((#[trigger] h[i] == '"' && i + 1 < h.len() && h[i + 1]
        == 'c') ==> i == n) && ((h[i] == '"' && i + 1 < h.len() && h[i + 1] == 'o') ==> i == 4) by {
        if on {
            if i == 0 {
            } else if i == 1 {
            } else if i == 2 {
            } else if i == 3 {
            } else if i == 4 {
            } else if i == 5 {
            } else if i == 6 {
            } else if i == 7 {
            } else if i == 8 {
            } else if i == 9 {
            } else if i == 10 {
            } else if i == 11 {
            } else if i == 12 {
            } else if i == 13 {
            } else if i == 14 {
            } else if i == 15 {
            } else if i == 16 {
            } else if i == 17 {
            } else if i == 18 {
            } else if i == 19 {
            } else if i == 20 {
            } else if i == 21 {
            } else if i == 22 {
            } else if i == 23 {
            } else if i == 24 {
            } else if i == 25 {
            } else if i == 26 {
            } else if i == 27 {
            } else if i == 28 {
            } else if i == 29 {
            } else if i == 30 {
            } else if i == 31 {
            }
        } else {
            if i == 0 {
            } else if i == 1 {
            } else if i == 2 {
            } else if i == 3 {
            } else if i == 4 {
            } else if i == 5 {
            } else if i == 6 {
            } else if i == 7 {
            } else if i == 8 {
            } else if i == 9 {
            } else if i == 10 {
            } else if i == 11 {
            } else if i == 12 {
            } else if i == 13 {
            } else if i == 14 {
            } else if i == 15 {
            } else if i == 16 {
            } else if i == 17 {
            } else if i == 18 {
            } else if i == 19 {
            } else if i == 20 {
            } else if i == 21 {
            } else if i == 22 {
            } else if i == 23 {
            } else if i == 24 {
            } else if i == 25 {
            } else if i == 26 {
            } else if i == 27 {
            } else if i == 28 {
            } else if i == 29 {
            } else if i == 30 {
            } else if i == 31 {
            } else if i == 32 {
            }
        }
    }
}

/// A setting that was written down reads back as it was: a restart has it again.
pub proof fn lemma_setting_round_trip(on: bool, at: u64)
    ensures
        read_back(written(on, at)) == Some((on, at)),
{
    let h = written_head(on);
    let d = text::decimal(at as nat);
    let tl = "\n}\n"@;
    let raw = written(on, at);
    let key = "\"changed_at\":"@;
    let mark = "\"on\": true"@;
    let n = h.len() - 14;
    lemma_head(on);
    text::lemma_decimal_round_trip(at as nat);
    reveal_strlit("\n}\n");
    reveal_strlit("\"changed_at\":");
    reveal_strlit("\"on\": true");
    assert(raw == h + d + tl);
    assert forall|i: int| h.len() <= i < raw.len() implies #[trigger] raw[i] != '"' by {
        if i < h.len() + d.len() {
            assert(raw[i] == d[i - h.len()]);
            assert('0' <= d[i - h.len()] <= '9');
        } else {
            assert(raw[i] == tl[i - h.len() - d.len()]);
        }
    }
    // Where the key stands.
    assert(raw.subrange(n, n + 13) =~= h.subrange(n, n + 13));
    assert(text::occurs_at(raw, key, n));
    assert forall|j: int| 0 <= j < n implies !#[trigger] text::occurs_at(raw, key, j) by {
        if text::occurs_at(raw, key, j) {
            assert(raw.subrange(j, j + 13)[0] == key[0]);
            assert(raw.subrange(j, j + 13)[1] == key[1]);
            assert(h[j] == raw[j] && h[j + 1] == raw[j + 1]);
        }
    }
    text::lemma_first_place_is(raw, key, n);
    let rest = raw.skip(n + 13);
    assert(rest =~= seq![' '] + d + tl);
    assert(!text::contains_text(rest, key)) by {
        assert forall|j: int| !#[trigger] text::occurs_at(rest, key, j) by {
            if text::occurs_at(rest, key, j) {
                assert(rest.subrange(j, j + 13)[0] == key[0]);
                assert(rest[j] == raw[n + 13 + j]);
                if n + 13 + j < h.len() {
                    assert(raw[n + 13 + j] == h[h.len() - 1]);
                }
            }
        }
    }
    assert(text::piece_behind(raw, key) == Some(rest));
    // What is left of it.
    let inner = d + "\n}"@;
    reveal_strlit("\n}");
    assert(rest =~= seq![' '] + inner + seq!['\n']);
    assert('0' <= d[0] <= '9');
    assert(inner[0] == d[0]);
    assert(inner.last() == '}');
    text::lemma_trimmed_core(seq![' '], inner, seq!['\n']);
    let bare = d + seq!['\n'];
    assert(inner.drop_last() =~= bare);
    assert(bare.last() == '\n');
    assert(text::without_ending(inner, '}') == bare) by {
        reveal_with_fuel(text::without_ending, 2);
    }
    assert('0' <= d[d.len() - 1] <= '9');
    assert(bare =~= Seq::<char>::empty() + d + seq!['\n']);
    text::lemma_trimmed_core(Seq::empty(), d, seq!['\n']);
    // Whether it is on.
    if on {
        assert(raw.subrange(4, 14) =~= h.subrange(4, 14));
        assert(text::occurs_at(raw, mark, 4));
    } else {
        assert(!text::contains_text(raw, mark)) by {
            assert forall|j: int| !#[trigger] text::occurs_at(raw, mark, j) by {
                if text::occurs_at(raw, mark, j) {
                    assert(raw.subrange(j, j + 10)[0] == mark[0]);
                    assert(raw.subrange(j, j + 10)[1] == mark[1]);
                    assert(raw.subrange(j, j + 10)[6] == mark[6]);
                    assert(j < h.len());
                    assert(h[j] == raw[j]);
                    assert(j + 1 < h.len());
                    assert(h[j + 1] == raw[j + 1]);
                    assert(j == 4);
                    assert(raw[10] == h[10]);
                }
            }
        }
    }
}

/// What the phone's setting does here, in full: an older or equal stamp, or none, changes
/// nothing; a newer one is adopted, and the desktop is set unless it and the shared setting
/// both have it.
pub proof fn lemma_what_a_report_does(d: Dnd, on: bool, at: u64, desktop: Option<bool>)
    ensures
        ({
            let (next, action) = peer_step(d, on, at, desktop);
            &&& at == 0 || at <= d.changed_at ==> next == d && action is Ignore
            &&& at > 0 && at > d.changed_at ==> next.on == on && next.changed_at == at && !(
            action is Ignore)
            &&& at > d.changed_at && (desktop is None || desktop->0 != on) ==> action is Apply
            &&& at > d.changed_at && d.on != on ==> action is Apply
            &&& at > d.changed_at && d.on == on && desktop == Some(on) ==> action is Keep
        }),
{
}

/// A change on this laptop is adopted at once, and the phone will adopt it too: its stamp is later
/// than the one before, and it is the time where that is later.
pub proof fn lemma_local_change_wins(
    d: &mut Dnd,
    on: bool,
    now: u64,
    peer_desktop: Option<bool>,
)
    requires
        old(d).changed_at < u64::MAX,
        call_ensures(note_local_change, (d, on, now), ()),
    ensures
        final(d).on == on,
        final(d).changed_at > old(d).changed_at,
        now > old(d).changed_at ==> final(d).changed_at == now,
        now <= old(d).changed_at ==> final(d).changed_at == old(d).changed_at + 1,
        peer_step(*old(d), final(d).on, final(d).changed_at, peer_desktop).0 == *final(d),
{
}

/// What the desktop says: `false` for its banners means that it does not disturb, anything else
/// that it does; without that setting its notification service decides. What is written to it
/// is read from it.
pub proof fn lemma_desktop_is_read_as_written(
    banners: &Option<String>,
    inhibited: Option<bool>,
    r: Option<bool>,
    on: bool,
    value: String,
)
    requires
        call_ensures(read_desktop, (banners, inhibited), r),
        call_ensures(banner_value, (on,), value),
    ensures
        banners is None ==> r == inhibited,
        banners is Some ==> r == Some(banners->0@ == "false"@),
        banners is Some && banners->0@ == value@ ==> r == Some(on),
{
    reveal_strlit("true");
    reveal_strlit("false");
    assert("true"@.len() != "false"@.len());
}

/// A change of the desktop that nobody was told of is noticed when it is looked at, and stamped
/// as a change of now; what agrees, and a desktop that says nothing, changes nothing.
pub proof fn lemma_desktop_is_followed(
    d: &mut Dnd,
    desktop: Option<bool>,
    now: u64,
    changed: bool,
)
    requires
        old(d).changed_at < u64::MAX,
        call_ensures(reconcile, (d, desktop, now), changed),
    ensures
        changed <==> desktop is Some && desktop->0 != old(d).on,
        changed ==> final(d).on == desktop->0 && final(d).changed_at > old(d).changed_at,
        !changed ==> *final(d) == *old(d),
{
}

/// A line of the monitor that names the setting and a value is a change to that value: `true`
/// for the banners turns Do Not Disturb off, and anything else turns it on.
pub proof fn lemma_monitor_is_followed(
    d: &mut Dnd,
    line: &str,
    now: u64,
    changed: bool,
    key: Seq<char>,
    value: Seq<char>,
)
    requires
        old(d).changed_at < u64::MAX,
        call_ensures(on_monitor_line, (d, line, now), changed),
        forall|i: int| 0 <= i < key.len() ==> #[trigger] key[i] != ':',
        value == "true"@ || value == "false"@,
        line@ == key + ": "@ + value,
    ensures
        final(d).on <==> value == "false"@,
        changed <==> old(d).on != (value == "false"@),
        changed ==> final(d).changed_at > old(d).changed_at,
{
    reveal_strlit(": ");
    reveal_strlit("true");
    reveal_strlit("false");
    assert("true"@.len() != "false"@.len());
    let n = key.len() as int;
    assert forall|i: int| 0 <= i < n implies #[trigger] line@[i] != ':' by {
        assert(line@[i] == key[i]);
    }
    assert(line@[n] == ':');
    text::lemma_first_of_is(line@, ':', n);
    assert(line@.skip(n + 1) =~= seq![' '] + value + Seq::<char>::empty());
    assert(text::is_white(' '));
    assert(value[0] == 't' || value[0] == 'f');
    assert(value.last() == 'e');
    text::lemma_trimmed_core(seq![' '], value, Seq::empty());
}

/// What a start of the program does: without a setting on the desktop nothing is shared; with
/// one, what was written down is taken up again, unless the desktop was changed meanwhile: then
/// that is a change of now. What was never changed has no stamp.
pub proof fn lemma_start_takes_up_the_setting(
    desktop: bool,
    on: bool,
    at: u64,
    now: u64,
    saved: Option<(bool, u64)>,
)
    requires
        0 < at < u64::MAX,
    ensures
        resumed(None, saved, now) is None,
        resumed(Some(desktop), None, now) == Some((Dnd { on: desktop, changed_at: 0 }, false)),
        resumed(Some(desktop), Some((on, 0)), now) == Some((
            Dnd { on: desktop, changed_at: 0 },
            false,
        )),
        ({
            let (d, changed) = resumed(Some(desktop), Some((on, at)), now)->0;
            &&& resumed(Some(desktop), Some((on, at)), now) is Some
            &&& d.on == desktop
            &&& changed <==> desktop != on
            &&& !changed ==> d.changed_at == at
            &&& changed ==> d.changed_at > at && d.changed_at >= now
        }),
{
}

/// The phone is told the setting as it is.
pub proof fn lemma_phone_is_told_the_setting(d: &Dnd, r: (bool, u64))
    requires
        call_ensures(state, (d,), r),
    ensures
        r.0 == d.on && r.1 == d.changed_at,
{
}

/// The setting is written down as a small object, and lies in the directory of settings.
pub proof fn lemma_setting_as_it_is_written(
    on: bool,
    at: u64,
    r: String,
    config: Option<String>,
    home: Option<String>,
    p: Option<String>,
)
    requires
        call_ensures(save_persisted, (on, at), r),
        call_ensures(store_path, (config, home), p),
        config is Some ==> config->0@.len() > 0 && config->0@.last() != '/',
        home is Some ==> home->0@.len() > 0 && home->0@.last() != '/',
    ensures
        on ==> r@ == "{\n  \"on\": true,\n  \"changed_at\": "@ + text::decimal(at as nat) + "\n}\n"@,
        !on ==> r@ == "{\n  \"on\": false,\n  \"changed_at\": "@ + text::decimal(at as nat) + "\n}\n"@,
        config is Some ==> p is Some && p->0@ == config->0@ + seq!['/'] + "vortex"@ + seq!['/']
            + "dnd.json"@,
        config is None && home is Some ==> p is Some && p->0@ == home->0@ + seq!['/'] + ".config"@ + seq![
            '/',
        ] + "vortex"@ + seq!['/'] + "dnd.json"@,
        config is None && home is None ==> p is None,
{
    reveal_strlit("vortex");
    reveal_strlit(".config");
    if config is Some {
        let c = config->0@;
        assert(c.push('/') =~= c + seq!['/']);
        let d = c + seq!['/'] + "vortex"@;
        assert(d.last() == "vortex"@.last());
        assert(d.push('/') =~= d + seq!['/']);
    } else if home is Some {
        let h = home->0@;
        assert(h.push('/') =~= h + seq!['/']);
        let c = h + seq!['/'] + ".config"@;
        assert(c.last() == ".config"@.last());
        assert(c.push('/') =~= c + seq!['/']);
        let d = c + seq!['/'] + "vortex"@;
        assert(d.last() == "vortex"@.last());
        assert(d.push('/') =~= d + seq!['/']);
    }
}

/// A setting without the time of its change is no setting, and the time is a number.
pub proof fn lemma_setting_needs_a_time(raw: &str, r: Option<(bool, u64)>)
    requires
        call_ensures(load_persisted, (raw,), r),
    ensures
        !text::contains_text(raw@, "\"changed_at\":"@) ==> r is None,
        r is Some ==> ((r->0).0 <==> text::contains_text(raw@, "\"on\": true"@)),
{
}

} // verus!
