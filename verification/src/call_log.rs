//! The phone's call history, gathered in batches.
//!
//! A call is known by its name. A batch brings new calls and newer versions of
//! old ones. The date of the latest call is what the next batch starts from.

use vstd::prelude::*;

use crate::text;
use crate::text::{parse_signed, same_text, trim};

verus! {

/// A call: what it is known by, when it took place, and the rest of it as the
/// phone wrote it.
#[derive(Debug, Clone, PartialEq, Eq)]
pub struct CallLogEntry<S = String> {
    pub id: S,
    pub date: i64,
    pub rest: S,
}

/// What a call says.
pub type SpecCall = CallLogEntry<Seq<char>>;

impl View for CallLogEntry {
    type V = SpecCall;

    open spec fn view(&self) -> SpecCall {
        CallLogEntry { id: self.id@, date: self.date, rest: self.rest@ }
    }
}

/// What a list of calls says.
pub open spec fn call_views(v: Seq<CallLogEntry>) -> Seq<SpecCall> {
    v.map_values(|e: CallLogEntry| e@)
}

/// The calls by name; of two with the same name, the later one in the list.
pub open spec fn by_id(v: Seq<SpecCall>) -> Map<Seq<char>, SpecCall>
    decreases v.len(),
{
    if v.len() == 0 {
        Map::empty()
    } else {
        by_id(v.drop_last()).insert(v.last().id, v.last())
    }
}

/// No call is listed twice.
pub open spec fn one_per_id(v: Seq<SpecCall>) -> bool {
    forall|i: int, j: int| 0 <= i < j < v.len() ==> (#[trigger] v[i]).id != (#[trigger] v[j]).id
}

/// The calls come in the order of their dates.
pub open spec fn by_date(v: Seq<SpecCall>) -> bool {
    forall|i: int, j: int| 0 <= i < j < v.len() ==> (#[trigger] v[i]).date <= (#[trigger] v[j]).date
}

proof fn lemma_by_id(v: Seq<SpecCall>)
    requires
        one_per_id(v),
    ensures
        forall|k: Seq<char>| #[trigger]
            by_id(v).dom().contains(k) ==> by_id(v)[k].id == k && v.contains(by_id(v)[k]),
        forall|i: int|
            0 <= i < v.len() ==> by_id(v).dom().contains((#[trigger] v[i]).id) && by_id(v)[v[i].id]
                == v[i],
    decreases v.len(),
{
    if v.len() > 0 {
        let w = v.drop_last();
        lemma_by_id(w);
        assert forall|k: Seq<char>| #[trigger] by_id(v).dom().contains(k) implies by_id(v)[k].id == k
            && v.contains(by_id(v)[k]) by {
            if k != v.last().id {
                assert(by_id(w).dom().contains(k));
                let i = choose|i: int| 0 <= i < w.len() && w[i] == by_id(w)[k];
                assert(v[i] == by_id(v)[k]);
            } else {
                assert(v[v.len() - 1] == by_id(v)[k]);
            }
        }
        assert forall|i: int| 0 <= i < v.len() implies by_id(v).dom().contains((#[trigger] v[i]).id)
            && by_id(v)[v[i].id] == v[i] by {
            if i < v.len() - 1 {
                assert(w[i] == v[i]);
                assert(v[i].id != v[v.len() - 1].id);
            }
        }
    }
}

/// Without the call at `at`.
proof fn lemma_take_out(v: Seq<SpecCall>, at: int)
    requires
        one_per_id(v),
        0 <= at < v.len(),
    ensures
        one_per_id(v.remove(at)),
        by_id(v.remove(at)) == by_id(v).remove(v[at].id),
        forall|j: int| 0 <= j < v.remove(at).len() ==> (#[trigger] v.remove(at)[j]).id != v[at].id,
        by_date(v) ==> by_date(v.remove(at)),
{
    let w = v.remove(at);
    let k0 = v[at].id;
    assert forall|i: int, j: int| 0 <= i < j < w.len() implies (#[trigger] w[i]).id != (
    #[trigger] w[j]).id by {
        let bi = if i < at {
            i
        } else {
            i + 1
        };
        let bj = if j < at {
            j
        } else {
            j + 1
        };
        assert(v[bi].id != v[bj].id);
    }
    assert forall|j: int| 0 <= j < w.len() implies (#[trigger] w[j]).id != k0 by {
        if j < at {
            assert(v[j].id != v[at].id);
        } else {
            assert(v[at].id != v[j + 1].id);
        }
    }
    if by_date(v) {
        assert forall|i: int, j: int| 0 <= i < j < w.len() implies (#[trigger] w[i]).date <= (
        #[trigger] w[j]).date by {
            let bi = if i < at {
                i
            } else {
                i + 1
            };
            let bj = if j < at {
                j
            } else {
                j + 1
            };
            assert(v[bi].date <= v[bj].date);
        }
    }
    lemma_by_id(v);
    lemma_by_id(w);
    assert forall|k: Seq<char>| by_id(w).dom().contains(k) == by_id(v).remove(k0).dom().contains(k) by {
        if by_id(w).dom().contains(k) {
            let i = choose|i: int| 0 <= i < w.len() && w[i] == by_id(w)[k];
            assert(w[i].id == k);
            let bi = if i < at {
                i
            } else {
                i + 1
            };
            assert(v[bi] == w[i]);
        }
        if by_id(v).remove(k0).dom().contains(k) {
            assert(by_id(v).dom().contains(k));
            let i = choose|i: int| 0 <= i < v.len() && v[i] == by_id(v)[k];
            assert(i != at);
            let wi = if i < at {
                i
            } else {
                i - 1
            };
            assert(w[wi] == v[i]);
        }
    }
    assert forall|k: Seq<char>| by_id(w).dom().contains(k) implies #[trigger] by_id(w)[k] == by_id(
        v,
    ).remove(k0)[k] by {
        let i = choose|i: int| 0 <= i < w.len() && w[i] == by_id(w)[k];
        let bi = if i < at {
            i
        } else {
            i + 1
        };
        assert(v[bi] == w[i]);
        assert(by_id(v)[v[bi].id] == v[bi]);
    }
    assert(by_id(w) =~= by_id(v).remove(k0));
}

/// With a new call at `at`.
proof fn lemma_put_in(v: Seq<SpecCall>, at: int, e: SpecCall)
    requires
        one_per_id(v),
        0 <= at <= v.len(),
        forall|j: int| 0 <= j < v.len() ==> (#[trigger] v[j]).id != e.id,
        by_date(v),
        forall|j: int| 0 <= j < at ==> (#[trigger] v[j]).date <= e.date,
        forall|j: int| at <= j < v.len() ==> (#[trigger] v[j]).date >= e.date,
    ensures
        one_per_id(v.insert(at, e)),
        by_id(v.insert(at, e)) == by_id(v).insert(e.id, e),
        by_date(v.insert(at, e)),
{
    let w = v.insert(at, e);
    assert forall|i: int, j: int| 0 <= i < j < w.len() implies (#[trigger] w[i]).id != (
    #[trigger] w[j]).id && w[i].date <= w[j].date by {
        let bi = if i < at {
            i
        } else {
            i - 1
        };
        let bj = if j < at {
            j
        } else {
            j - 1
        };
        if i == at {
            assert(w[j] == v[bj]);
        } else if j == at {
            assert(w[i] == v[bi]);
        } else {
            assert(w[i] == v[bi] && w[j] == v[bj]);
            assert(v[bi].id != v[bj].id && v[bi].date <= v[bj].date);
        }
    }
    lemma_by_id(v);
    lemma_by_id(w);
    assert(w[at] == e);
    assert forall|k: Seq<char>| by_id(w).dom().contains(k) == by_id(v).insert(e.id, e).dom().contains(
        k,
    ) by {
        if by_id(w).dom().contains(k) {
            let i = choose|i: int| 0 <= i < w.len() && w[i] == by_id(w)[k];
            if i != at {
                let bi = if i < at {
                    i
                } else {
                    i - 1
                };
                assert(v[bi] == w[i]);
            }
        }
        if by_id(v).dom().contains(k) {
            let i = choose|i: int| 0 <= i < v.len() && v[i] == by_id(v)[k];
            let wi = if i < at {
                i
            } else {
                i + 1
            };
            assert(w[wi] == v[i]);
        }
    }
    assert forall|k: Seq<char>| by_id(w).dom().contains(k) implies #[trigger] by_id(w)[k] == by_id(
        v,
    ).insert(e.id, e)[k] by {
        let i = choose|i: int| 0 <= i < w.len() && w[i] == by_id(w)[k];
        if i != at {
            let bi = if i < at {
                i
            } else {
                i - 1
            };
            assert(v[bi] == w[i]);
            assert(by_id(v)[v[bi].id] == v[bi]);
        }
    }
    assert(by_id(w) =~= by_id(v).insert(e.id, e));
}

/// A call with this name is listed.
proof fn lemma_insert_twice(m: Map<Seq<char>, SpecCall>, e: SpecCall)
    ensures
        m.remove(e.id).insert(e.id, e) == m.insert(e.id, e),
{
    assert(m.remove(e.id).insert(e.id, e) =~= m.insert(e.id, e));
}

/// Puts a call into a list that is in order, in place of one with the same name.
fn upsert(list: &mut Vec<CallLogEntry>, e: CallLogEntry)
    requires
        one_per_id(call_views(old(list)@)),
        by_date(call_views(old(list)@)),
    ensures
        one_per_id(call_views(final(list)@)),
        by_date(call_views(final(list)@)),
        by_id(call_views(final(list)@)) == by_id(call_views(old(list)@)).insert(e@.id, e@),
{
    let ghost before = call_views(list@);
    let ghost ev = e@;
    let mut i: usize = 0;
    while i < list.len() && !same_text(list[i].id.as_str(), e.id.as_str())
        invariant
            i <= list@.len(),
            call_views(list@) == before,
            ev == e@,
            forall|j: int| 0 <= j < i ==> (#[trigger] before[j]).id != ev.id,
        decreases list.len() - i,
    {
        assert(before[i as int] == list@[i as int]@);
        i += 1;
    }
    if i < list.len() {
        assert(before[i as int] == list@[i as int]@);
        let _old = list.remove(i);
        proof {
            lemma_take_out(before, i as int);
            assert(call_views(list@) =~= before.remove(i as int));
            lemma_insert_twice(by_id(before), ev);
        }
    }
    let ghost rest = call_views(list@);
    let mut at: usize = 0;
    while at < list.len() && list[at].date <= e.date
        invariant
            at <= list@.len(),
            call_views(list@) == rest,
            ev == e@,
            forall|j: int| 0 <= j < at ==> (#[trigger] rest[j]).date <= ev.date,
        decreases list.len() - at,
    {
        assert(rest[at as int] == list@[at as int]@);
        at += 1;
    }
    proof {
        assert forall|j: int| at <= j < rest.len() implies (#[trigger] rest[j]).date >= ev.date by {
            assert(rest[at as int] == list@[at as int]@);
            if j > at {
                assert(rest[at as int].date <= rest[j].date);
            }
        }
        lemma_put_in(rest, at as int, ev);
    }
    list.insert(at, e);
    assert(call_views(list@) =~= rest.insert(at as int, ev));
}

/// Puts all calls of a list into one that is in order.
fn upsert_all(list: &mut Vec<CallLogEntry>, more: Vec<CallLogEntry>)
    requires
        one_per_id(call_views(old(list)@)),
        by_date(call_views(old(list)@)),
    ensures
        one_per_id(call_views(final(list)@)),
        by_date(call_views(final(list)@)),
        forall|seen: Seq<SpecCall>|
            by_id(seen) == by_id(call_views(old(list)@)) ==> by_id(call_views(final(list)@)) == #[trigger] by_id(
                seen + call_views(more@),
            ),
{
    let ghost all = call_views(more@);
    let ghost start = by_id(call_views(list@));
    let mut more = more;
    let ghost mut done: int = 0;
    proof {
        assert forall|seen: Seq<SpecCall>| by_id(seen) == start implies by_id(call_views(list@))
            == #[trigger] by_id(seen + all.take(0)) by {
            assert(seen + all.take(0) =~= seen);
        }
    }
    while more.len() > 0
        invariant
            0 <= done <= all.len(),
            call_views(more@) == all.skip(done),
            one_per_id(call_views(list@)),
            by_date(call_views(list@)),
            forall|seen: Seq<SpecCall>|
                by_id(seen) == start ==> by_id(call_views(list@)) == #[trigger] by_id(
                    seen + all.take(done),
                ),
        decreases more.len(),
    {
        let ghost prior = by_id(call_views(list@));
        let ghost rest = call_views(more@);
        let e = more.remove(0);
        let ghost ev = e@;
        proof {
            assert(rest.len() == all.len() - done);
            assert(all.skip(done)[0] == all[done]);
            assert(rest[0] == ev);
        }
        upsert(list, e);
        proof {
            assert(call_views(more@) =~= rest.remove(0));
            assert(rest.remove(0) =~= all.skip(done + 1));
            assert forall|seen: Seq<SpecCall>| by_id(seen) == start implies by_id(call_views(list@))
                == #[trigger] by_id(seen + all.take(done + 1)) by {
                let longer = seen + all.take(done + 1);
                assert(longer.drop_last() =~= seen + all.take(done));
                assert(longer.last() == ev);
                assert(by_id(seen + all.take(done)) == prior);
            }
            done = done + 1;
        }
    }
    proof {
        assert(call_views(more@).len() == 0);
        assert(all.take(done) =~= all);
    }
}

/// Merges a batch into the history: each call once, in its newer version, in the
/// order of the dates. Of calls with the same date either may come first. Nothing
/// happens for an empty batch; otherwise the date of the latest call comes with
/// the history, to start the next batch from.
pub fn merge_history(store: Vec<CallLogEntry>, batch: Vec<CallLogEntry>) -> (r: Option<
    (Vec<CallLogEntry>, i64),
>)
    ensures
        r is None <==> batch@.len() == 0,
        r matches Some(m) ==> {
            let merged = call_views(m.0@);
            &&& by_id(merged) == by_id(call_views(store@) + call_views(batch@))
            &&& one_per_id(merged)
            &&& by_date(merged)
            &&& m.1 == if merged.len() > 0 {
                merged.last().date
            } else {
                0
            }
        },
{
    if batch.len() == 0 {
        return None;
    }
    let ghost stored = call_views(store@);
    let mut merged: Vec<CallLogEntry> = Vec::new();
    assert(call_views(merged@) =~= Seq::<SpecCall>::empty());
    upsert_all(&mut merged, store);
    proof {
        assert(by_id(Seq::<SpecCall>::empty()) == by_id(call_views(Seq::<CallLogEntry>::empty())));
        assert(Seq::<SpecCall>::empty() + stored =~= stored);
    }
    assert(by_id(call_views(merged@)) == by_id(stored));
    upsert_all(&mut merged, batch);
    let n: usize = merged.len();
    let since: i64 = if n > 0 {
        merged[n - 1].date
    } else {
        0
    };
    Some((merged, since))
}

/// A call that a batch brings is in the history afterwards, as the batch has it.
pub proof fn lemma_batch_wins(store: Seq<SpecCall>, batch: Seq<SpecCall>, i: int)
    requires
        0 <= i < batch.len(),
        forall|j: int| i < j < batch.len() ==> (#[trigger] batch[j]).id != batch[i].id,
    ensures
        by_id(store + batch).dom().contains(batch[i].id),
        by_id(store + batch)[batch[i].id] == batch[i],
    decreases batch.len(),
{
    let all = store + batch;
    assert(all.last() == batch.last());
    if i < batch.len() - 1 {
        let before = batch.drop_last();
        assert(all.drop_last() =~= store + before);
        assert(batch[batch.len() - 1].id != batch[i].id);
        assert forall|j: int| i < j < before.len() implies (#[trigger] before[j]).id != before[i].id by {
            assert(batch[j].id != batch[i].id);
        }
        lemma_batch_wins(store, before, i);
    }
}

/// A call that no batch brings again stays in the history.
pub proof fn lemma_history_is_kept(store: Seq<SpecCall>, batch: Seq<SpecCall>, id: Seq<char>)
    requires
        by_id(store).dom().contains(id),
        forall|j: int| 0 <= j < batch.len() ==> (#[trigger] batch[j]).id != id,
    ensures
        by_id(store + batch).dom().contains(id),
        by_id(store + batch)[id] == by_id(store)[id],
    decreases batch.len(),
{
    let all = store + batch;
    if batch.len() == 0 {
        assert(all =~= store);
    } else {
        let before = batch.drop_last();
        assert(all.drop_last() =~= store + before);
        assert(batch[batch.len() - 1].id != id);
        assert forall|j: int| 0 <= j < before.len() implies (#[trigger] before[j]).id != id by {
            assert(batch[j].id != id);
        }
        lemma_history_is_kept(store, before, id);
    }
}

/// The date that the next batch starts from: the one that was written down, and
/// zero where none was, or where it cannot be read.
pub fn history_since(written: &Option<String>) -> (r: i64)
    ensures
        r == match *written {
            Some(s) => match text::parsed_signed(text::trimmed(s@)) {
                Some(n) => n,
                None => 0,
            },
            None => 0,
        },
{
    match written {
        Some(s) => match parse_signed(trim(s.as_str()).as_str()) {
            Some(n) => n,
            None => 0,
        },
        None => 0,
    }
}

/// A call that the history lists was in the store or in the batch.
proof fn lemma_nothing_is_made_up(v: Seq<SpecCall>, id: Seq<char>)
    requires
        by_id(v).dom().contains(id),
    ensures
        v.contains(by_id(v)[id]),
    decreases v.len(),
{
    if v.len() > 0 {
        if id == v.last().id {
            assert(v[v.len() - 1] == by_id(v)[id]);
        } else {
            lemma_nothing_is_made_up(v.drop_last(), id);
            let w = v.drop_last();
            let i = choose|i: int| 0 <= i < w.len() && w[i] == by_id(w)[id];
            assert(v[i] == by_id(v)[id]);
        }
    }
}

/// What a batch does to the history: its calls are listed as it has them, calls that it does
/// not bring again stay, nothing else is listed and nothing twice, the dates rise, and the next
/// batch starts from the latest of them. An empty batch does nothing.
pub proof fn lemma_history_after_a_batch(
    store: Vec<CallLogEntry>,
    batch: Vec<CallLogEntry>,
    r: Option<(Vec<CallLogEntry>, i64)>,
    i: int,
    k: int,
)
    requires
        call_ensures(merge_history, (store, batch), r),
    ensures
        r is None <==> batch@.len() == 0,
        r is Some ==> {
            let b = call_views(batch@);
            let s = call_views(store@);
            let m = call_views((r->0).0@);
            &&& 0 <= i < b.len() && (forall|j: int| i < j < b.len() ==> (#[trigger] b[j]).id != b[i].id)
                ==> m.contains(b[i])
            &&& 0 <= i < s.len() && (forall|j: int| i < j < s.len() ==> (#[trigger] s[j]).id != s[i].id)
                && (forall|j: int| 0 <= j < b.len() ==> (#[trigger] b[j]).id != s[i].id) ==> m.contains(
                s[i],
            )
            &&& 0 <= i < m.len() ==> s.contains(m[i]) || b.contains(m[i])
            &&& 0 <= i < m.len() ==> m[i].date <= (r->0).1
            &&& 0 <= i < k < m.len() ==> m[i].id != m[k].id && m[i].date <= m[k].date
            &&& exists|j: int| 0 <= j < m.len() && (#[trigger] m[j]).date == (r->0).1
        },
{
    if r is Some {
        let b = call_views(batch@);
        let s = call_views(store@);
        let m = call_views((r->0).0@);
        let all = s + b;
        lemma_by_id(m);
        if 0 <= i < b.len() && (forall|j: int| i < j < b.len() ==> (#[trigger] b[j]).id != b[i].id) {
            lemma_batch_wins(s, b, i);
            assert(by_id(m).dom().contains(b[i].id));
        }
        if 0 <= i < s.len() && (forall|j: int| i < j < s.len() ==> (#[trigger] s[j]).id != s[i].id)
            && (forall|j: int| 0 <= j < b.len() ==> (#[trigger] b[j]).id != s[i].id) {
            lemma_batch_wins(Seq::empty(), s, i);
            assert(Seq::<SpecCall>::empty() + s =~= s);
            lemma_history_is_kept(s, b, s[i].id);
            assert(by_id(m).dom().contains(s[i].id));
        }
        if 0 <= i < m.len() {
            assert(by_id(m).dom().contains(m[i].id));
            lemma_nothing_is_made_up(all, m[i].id);
            let j = choose|j: int| 0 <= j < all.len() && all[j] == m[i];
            if j < s.len() {
                assert(s[j] == m[i]);
            } else {
                assert(b[j - s.len()] == m[i]);
            }
            if i < m.len() - 1 {
                assert(m[i].date <= m[m.len() - 1].date);
            }
        }
        let last = b.len() - 1;
        lemma_batch_wins(s, b, last);
        assert(by_id(m).dom().contains(b[last].id));
        assert(m.len() > 0);
        assert(m[m.len() - 1].date == (r->0).1);
    }
}

/// The date that was written down in decimal is the one that the next batch starts from, with
/// white space around it or without; where nothing was written down, it starts from the
/// beginning.
pub proof fn lemma_date_is_taken_up(
    written: &Option<String>,
    r: i64,
    n: i64,
    pre: Seq<char>,
    post: Seq<char>,
)
    requires
        call_ensures(history_since, (written,), r),
        n >= 0,
        forall|i: int| 0 <= i < pre.len() ==> text::is_white(#[trigger] pre[i]),
        forall|i: int| 0 <= i < post.len() ==> text::is_white(#[trigger] post[i]),
        written is Some ==> written->0@ == pre + text::decimal(n as nat) + post,
    ensures
        written is None ==> r == 0,
        written is Some ==> r == n,
{
    let d = text::decimal(n as nat);
    text::lemma_decimal_round_trip(n as nat);
    assert('0' <= d[0] <= '9' && '0' <= d[d.len() - 1] <= '9');
    text::lemma_trimmed_core(pre, d, post);
}

} // verus!
