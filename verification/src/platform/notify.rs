//! Notifications on Windows, which knows them by a tag: which toast a request
//! replaces, which are up, and what their dismissal means.

use vstd::prelude::*;

use crate::text;
use crate::text::decimal_text;

verus! {

/// The toasts that are up.
pub struct WindowsNotifier {
    next_id: u32,
    live: Vec<u32>,
}

/// What is known of the toasts.
#[verifier::ext_equal]
pub struct NotifierView {
    /// The number of the next new toast; 0 stands for no toast.
    pub next_id: u32,
    /// The toasts that are up.
    pub live: Set<u32>,
}

impl View for WindowsNotifier {
    type V = NotifierView;

    closed spec fn view(&self) -> NotifierView {
        NotifierView { next_id: self.next_id, live: self.live@.to_set() }
    }
}

/// The tag of a toast.
pub open spec fn tag_of(id: u32) -> Seq<char> {
    "vortex-"@ + text::decimal(id as nat)
}

/// The number after `id`; the numbers start over behind the largest.
pub open spec fn id_after(id: u32) -> u32 {
    if id == u32::MAX {
        0
    } else {
        (id + 1) as u32
    }
}

fn tag_text(id: u32) -> (r: String)
    ensures
        r@ == tag_of(id),
{
    "vortex-".to_owned().concat(decimal_text(id as u64).as_str())
}

fn place_of(v: &Vec<u32>, x: u32) -> (r: Option<usize>)
    ensures
        r is Some <==> v@.contains(x),
        r is Some ==> r->0 < v@.len() && v@[r->0 as int] == x,
{
    let mut i: usize = 0;
    while i < v.len()
        invariant
            i <= v@.len(),
            forall|j: int| 0 <= j < i ==> v@[j] != x,
        decreases v.len() - i,
    {
        if v[i] == x {
            return Some(i);
        }
        i += 1;
    }
    None
}

impl WindowsNotifier {
    #[verifier::type_invariant]
    spec fn each_once(self) -> bool {
        self.live@.no_duplicates()
    }

    /// Nothing is up.
    pub fn new() -> (r: Self)
        ensures
            r@ == (NotifierView { next_id: 1, live: Set::empty() }),
    {
        let r = WindowsNotifier { next_id: 1, live: Vec::new() };
        assert(r@.live =~= Set::<u32>::empty());
        r
    }

    /// The number and the tag for a toast that is to be shown: those of the toast
    /// that it replaces, if that is up, else new ones.
    pub fn place(&mut self, replaces: u32) -> (r: (u32, String))
        ensures
            old(self)@.live.contains(replaces) ==> r.0 == replaces && final(self)@ == old(self)@,
            !old(self)@.live.contains(replaces) ==> r.0 == old(self)@.next_id && final(self)@ == (
            NotifierView { next_id: id_after(old(self)@.next_id), ..old(self)@ }),
            r.1@ == tag_of(r.0),
    {
        proof {
            use_type_invariant(&*self);
        }
        let id: u32 = if place_of(&self.live, replaces).is_some() {
            replaces
        } else {
            let id: u32 = self.next_id;
            self.next_id = if id == u32::MAX {
                0
            } else {
                id + 1
            };
            id
        };
        (id, tag_text(id))
    }

    /// The toast `id` is up.
    pub fn shown(&mut self, id: u32)
        ensures
            final(self)@ == (NotifierView { live: old(self)@.live.insert(id), ..old(self)@ }),
    {
        proof {
            use_type_invariant(&*self);
        }
        if place_of(&self.live, id).is_none() {
            let mut live: Vec<u32> = Vec::new();
            let mut i: usize = 0;
            while i < self.live.len()
                invariant
                    i <= self.live@.len(),
                    live@ == self.live@.take(i as int),
                    self.next_id == old(self).next_id,
                    self.live == old(self).live,
                    self.live@.no_duplicates(),
                decreases self.live.len() - i,
            {
                live.push(self.live[i]);
                assert(self.live@.take(i + 1) =~= self.live@.take(i as int).push(
                    self.live@[i as int],
                ));
                i += 1;
            }
            assert(live@ =~= self.live@);
            live.push(id);
            assert(live@.to_set() =~= old(self)@.live.insert(id)) by {
                assert forall|x: u32| live@.contains(x) <==> self.live@.contains(x) || x == id by {
                    if self.live@.contains(x) {
                        let k = choose|k: int| 0 <= k < self.live@.len() && self.live@[k] == x;
                        assert(live@[k] == x);
                    }
                    assert(live@[live@.len() - 1] == id);
                }
            }
            self.live = live;
        }
        assert(self@.live =~= old(self)@.live.insert(id));
    }

    /// The toast `id` is to go: its tag, if it is up.
    pub fn close(&mut self, id: u32) -> (tag: Option<String>)
        ensures
            tag is Some <==> old(self)@.live.contains(id),
            tag is Some ==> tag->0@ == tag_of(id),
            final(self)@ == (NotifierView { live: old(self)@.live.remove(id), ..old(self)@ }),
    {
        proof {
            use_type_invariant(&*self);
        }
        match place_of(&self.live, id) {
            None => {
                assert(self@.live =~= old(self)@.live.remove(id));
                None
            },
            Some(at) => {
                let mut live: Vec<u32> = Vec::new();
                std::mem::swap(&mut live, &mut self.live);
                let ghost before = live@;
                live.remove(at);
                proof {
                    assert(live@ =~= before.remove(at as int));
                    assert(live@.no_duplicates());
                    assert(live@.to_set() =~= before.to_set().remove(id)) by {
                        assert forall|x: u32| live@.contains(x) <==> before.contains(x) && x
                            != id by {
                            if before.contains(x) && x != id {
                                let k = choose|k: int| 0 <= k < before.len() && before[k] == x;
                                let m: int = if k < at {
                                    k
                                } else {
                                    k - 1
                                };
                                assert(live@[m] == x);
                            }
                            if live@.contains(x) {
                                let k = choose|k: int| 0 <= k < live@.len() && live@[k] == x;
                                let m: int = if k < at {
                                    k
                                } else {
                                    k + 1
                                };
                                assert(before[m] == x);
                                assert(before[at as int] == id);
                            }
                        }
                    }
                }
                self.live = live;
                Some(tag_text(id))
            },
        }
    }
}

/// Why Windows dismissed a toast.
#[derive(Clone, Copy, PartialEq, Eq, Structural, Debug)]
pub enum Dismissal {
    TimedOut,
    UserCanceled,
    ApplicationHidden,
    Unknown,
}

/// The number by which a dismissal is known everywhere else: 1 for expired, 2 for
/// dismissed by the user, 3 for withdrawn by the program, 4 for unknown.
pub fn closed_reason(why: Option<Dismissal>) -> (r: u32)
    ensures
        r == (match why {
            Some(Dismissal::TimedOut) => 1u32,
            Some(Dismissal::UserCanceled) => 2,
            Some(Dismissal::ApplicationHidden) => 3,
            _ => 4,
        }),
{
    match why {
        Some(Dismissal::TimedOut) => 1,
        Some(Dismissal::UserCanceled) => 2,
        Some(Dismissal::ApplicationHidden) => 3,
        _ => 4,
    }
}

/// The key of the button that was pressed; a click beside the buttons has none.
pub fn clicked_key(arguments: &str) -> (r: Option<String>)
    ensures
        r is Some <==> arguments@.len() > 0,
        r is Some ==> r->0@ == arguments@,
{
    if arguments.is_empty() {
        None
    } else {
        Some(arguments.to_owned())
    }
}

/// The consumers that stay registered after something was delivered to all of
/// them: those that it reached.
pub open spec fn reached(sinks: Seq<u64>, delivered: Seq<bool>) -> Seq<u64>
    decreases sinks.len(),
{
    if sinks.len() == 0 {
        Seq::empty()
    } else if delivered[sinks.len() - 1] {
        reached(sinks.drop_last(), delivered).push(sinks.last())
    } else {
        reached(sinks.drop_last(), delivered)
    }
}

/// Delivers to every consumer, and drops those that are gone.
pub fn fan_out(sinks: &Vec<u64>, delivered: &Vec<bool>) -> (r: Vec<u64>)
    requires
        sinks@.len() == delivered@.len(),
    ensures
        r@ == reached(sinks@, delivered@),
{
    let mut r: Vec<u64> = Vec::new();
    let mut i: usize = 0;
    assert(sinks@.take(0) =~= Seq::<u64>::empty());
    while i < sinks.len()
        invariant
            i <= sinks@.len(),
            sinks@.len() == delivered@.len(),
            r@ == reached(sinks@.take(i as int), delivered@),
        decreases sinks.len() - i,
    {
        assert(sinks@.take(i + 1).drop_last() =~= sinks@.take(i as int));
        if delivered[i] {
            r.push(sinks[i]);
        }
        i += 1;
    }
    assert(sinks@.take(i as int) =~= sinks@);
    r
}

/// What to do about the shortcut that gives toasts their name.
#[derive(Clone, Copy, PartialEq, Eq, Structural, Debug)]
pub enum ShortcutPlan {
    /// There is no folder for it.
    NoFolder,
    /// It is there; it is not written again, the user may have changed it.
    Present,
    /// The program cannot tell its own path.
    NoPath,
    Write,
}

/// What to do about the shortcut that gives toasts their name.
pub fn plan_shortcut(folder_known: bool, present: bool, path_known: bool) -> (r: ShortcutPlan)
    ensures
        r == (if !folder_known {
            ShortcutPlan::NoFolder
        } else if present {
            ShortcutPlan::Present
        } else if !path_known {
            ShortcutPlan::NoPath
        } else {
            ShortcutPlan::Write
        }),
{
    if !folder_known {
        ShortcutPlan::NoFolder
    } else if present {
        ShortcutPlan::Present
    } else if !path_known {
        ShortcutPlan::NoPath
    } else {
        ShortcutPlan::Write
    }
}

/// A toast that replaces one that is up takes its number and its tag; any other gets the next
/// number, and the one after that the number behind it.
pub proof fn lemma_toasts_are_told_apart(
    n: &mut WindowsNotifier,
    first: (u32, String),
    m: &mut WindowsNotifier,
    second: (u32, String),
    p: &mut WindowsNotifier,
    again: (u32, String),
)
    requires
        !old(n)@.live.contains(0),
        old(n)@.next_id < u32::MAX,
        call_ensures(WindowsNotifier::place, (n, 0u32), first),
        call_ensures(WindowsNotifier::shown, (m, first.0), ()),
        old(m)@ == final(n)@,
        old(p)@ == final(m)@,
        call_ensures(WindowsNotifier::place, (p, first.0), again),
        second.0 == again.0,
    ensures
        first.0 == old(n)@.next_id,
        first.1@ == "vortex-"@ + text::decimal(first.0 as nat),
        final(n)@.next_id == first.0 + 1,
        final(m)@.live.contains(first.0),
        again.0 == first.0,
        again.1@ == first.1@,
        final(p)@.next_id == first.0 + 1,
{
}

/// A toast that is taken down is no longer up, which happens once, and no other toast goes with it.
pub proof fn lemma_toast_goes_once(
    n: &mut WindowsNotifier,
    id: u32,
    tag: Option<String>,
    m: &mut WindowsNotifier,
    again: Option<String>,
    other: u32,
)
    requires
        call_ensures(WindowsNotifier::close, (n, id), tag),
        old(m)@ == final(n)@,
        call_ensures(WindowsNotifier::close, (m, id), again),
        other != id,
    ensures
        tag is Some <==> old(n)@.live.contains(id),
        tag is Some ==> tag->0@ == "vortex-"@ + text::decimal(id as nat),
        !final(n)@.live.contains(id),
        final(n)@.live.contains(other) <==> old(n)@.live.contains(other),
        again is None,
{
}

/// What a dismissal is called elsewhere, and what a click says.
pub proof fn lemma_numbers_of_the_dismissals(
    why: Option<Dismissal>,
    r: u32,
    arguments: &str,
    key: Option<String>,
)
    requires
        call_ensures(closed_reason, (why,), r),
        call_ensures(clicked_key, (arguments,), key),
    ensures
        why == Some(Dismissal::TimedOut) <==> r == 1,
        why == Some(Dismissal::UserCanceled) <==> r == 2,
        why == Some(Dismissal::ApplicationHidden) <==> r == 3,
        r == 4 <==> why is None || why->0 is Unknown,
        key is Some <==> arguments@.len() > 0,
        key is Some ==> key->0@ == arguments@,
{
}

/// Those that were reached stay, and no others.
pub proof fn lemma_reached_consumers_stay(sinks: Seq<u64>, delivered: Seq<bool>, x: u64)
    requires
        sinks.len() == delivered.len(),
    ensures
        reached(sinks, delivered).contains(x) <==> exists|i: int|
            0 <= i < sinks.len() && #[trigger] sinks[i] == x && delivered[i],
        (forall|i: int| 0 <= i < sinks.len() ==> #[trigger] delivered[i]) ==> reached(sinks, delivered)
            == sinks,
{
    lemma_reached(sinks, delivered, x);
}

proof fn lemma_reached(sinks: Seq<u64>, delivered: Seq<bool>, x: u64)
    requires
        sinks.len() <= delivered.len(),
    ensures
        reached(sinks, delivered).contains(x) <==> exists|i: int|
            0 <= i < sinks.len() && #[trigger] sinks[i] == x && delivered[i],
        (forall|i: int| 0 <= i < sinks.len() ==> #[trigger] delivered[i]) ==> reached(sinks, delivered)
            == sinks,
    decreases sinks.len(),
{
    if sinks.len() > 0 {
        let before = sinks.drop_last();
        let n = sinks.len() - 1;
        lemma_reached(before, delivered, x);
        let all = reached(sinks, delivered);
        let some = reached(before, delivered);
        if delivered[n] {
            assert(all == some.push(sinks.last()));
            assert(all.last() == sinks[n]);
            if some.contains(x) {
                let k = choose|k: int| 0 <= k < some.len() && some[k] == x;
                assert(all[k] == x);
            }
            if all.contains(x) && !some.contains(x) {
                let k = choose|k: int| 0 <= k < all.len() && all[k] == x;
                if k < some.len() {
                    assert(some[k] == x);
                }
                assert(sinks[n] == x && delivered[n]);
            }
        }
        if exists|i: int| 0 <= i < sinks.len() && #[trigger] sinks[i] == x && delivered[i] {
            let i = choose|i: int| 0 <= i < sinks.len() && #[trigger] sinks[i] == x && delivered[i];
            if i < n {
                assert(before[i] == x);
            } else {
                assert(all[all.len() - 1] == x);
            }
        }
        if exists|i: int| 0 <= i < before.len() && #[trigger] before[i] == x && delivered[i] {
            let i = choose|i: int| 0 <= i < before.len() && #[trigger] before[i] == x && delivered[i];
            assert(sinks[i] == x);
        }
        if forall|i: int| 0 <= i < sinks.len() ==> #[trigger] delivered[i] {
            assert(delivered[n]);
            assert(all =~= sinks);
        }
    }
}

/// The shortcut is written when it is not there and both the folder and the program's path are
/// known, and only then.
pub proof fn lemma_when_the_shortcut_is_written(
    folder: bool,
    present: bool,
    path: bool,
    r: ShortcutPlan,
)
    requires
        call_ensures(plan_shortcut, (folder, present, path), r),
    ensures
        r is Write <==> folder && !present && path,
        r is NoFolder <==> !folder,
        r is Present <==> folder && present,
        r is NoPath <==> folder && !present && !path,
{
}

} // verus!
