//! The clipboard history: everything that was copied on this laptop, the newest
//! first.
//!
//! The same content is kept once; copying it again brings it to the front. What
//! is not pinned is forgotten after a week, and earlier when there is too much of
//! it. A copy that a password manager marks as secret is never taken in.

use vstd::prelude::*;
use vstd::utf8;

use crate::clipboard_sync;
use crate::clipboard_sync::{img_sig, tidy_text};
use crate::codec;
use crate::codec::{encode_png, hex_encode, sha256_digest, utf8_text};
use crate::platform::paths;
use crate::platform::paths::join;
use crate::text;
use crate::text::{
    chars_of, decimal_text, same_text, text_between, to_ascii_lowercase, trim,
};

verus! {

/// The most entries that are kept.
pub const MAX_ENTRIES: usize = 1000;

/// The most bytes that are kept.
pub const MAX_TOTAL_BYTES: u64 = 104_857_600;

/// How long an entry is kept that is not pinned, in milliseconds: seven days.
pub const MAX_AGE_MS: u64 = 604_800_000;

/// The most characters that are kept of a text.
pub const MAX_TEXT_CHARS: usize = 65_536;

/// The largest picture that is kept, in bytes.
pub const MAX_IMAGE_BYTES: usize = 20_971_520;

/// The number of characters of a text that the list shows.
pub const PREVIEW_CHARS: usize = 400;

/// How often the clipboard is looked at, in milliseconds.
pub const POLL_MS: u64 = 700;

/// One copy.
#[derive(Debug, Clone, PartialEq, Eq)]
pub struct ClipEntry<S = String> {
    /// What the content is known by: equal content, equal name.
    pub id: S,
    /// `text` or `image`.
    pub kind: S,
    pub text: Option<S>,
    /// The file that holds the picture, in the directory of the history.
    pub file: Option<S>,
    /// The size of the content.
    pub bytes: u64,
    /// When it was copied, in milliseconds since the epoch.
    pub ts_ms: u64,
    pub pinned: bool,
}

/// What an entry says.
pub type SpecEntry = ClipEntry<Seq<char>>;

impl View for ClipEntry {
    type V = SpecEntry;

    open spec fn view(&self) -> SpecEntry {
        ClipEntry {
            id: self.id@,
            kind: self.kind@,
            text: text::maybe(self.text),
            file: text::maybe(self.file),
            bytes: self.bytes,
            ts_ms: self.ts_ms,
            pinned: self.pinned,
        }
    }
}

/// What a history says.
pub open spec fn entry_views(v: Seq<ClipEntry>) -> Seq<SpecEntry> {
    v.map_values(|e: ClipEntry| e@)
}

/// The name that bytes are known by: the first 16 digits of their digest.
pub open spec fn name_of(b: Seq<u8>) -> Seq<char> {
    codec::hex_text(codec::sha256(b)).take(16)
}

/// The name that bytes are known by.
pub fn hash_id(bytes: &[u8]) -> (r: String)
    ensures
        r@ == name_of(bytes@),
{
    let digest = sha256_digest(bytes);
    let hex = hex_encode(digest.as_slice());
    let chars = chars_of(hex.as_str());
    let r = text_between(&chars, 0, 16);
    assert(r@ =~= name_of(bytes@));
    r
}

// ---------------------------------------------------------------------------
// Forgetting
// ---------------------------------------------------------------------------

/// An entry is too old to be kept at the time `now`. A clock that stands still
/// at zero makes nothing old.
pub open spec fn is_expired(e: SpecEntry, now: u64) -> bool {
    now > 0 && !e.pinned && e.ts_ms <= (if now >= MAX_AGE_MS {
        now - MAX_AGE_MS
    } else {
        0
    })
}

/// The history without what is too old.
pub open spec fn unexpired(v: Seq<SpecEntry>, now: u64) -> Seq<SpecEntry>
    decreases v.len(),
{
    if v.len() == 0 {
        v
    } else if is_expired(v[0], now) {
        unexpired(v.drop_first(), now)
    } else {
        seq![v[0]] + unexpired(v.drop_first(), now)
    }
}

/// The file of an entry, when it has one.
pub open spec fn files_of(e: SpecEntry) -> Seq<Seq<char>> {
    match e.file {
        Some(f) => seq![f],
        None => Seq::empty(),
    }
}

/// The files of what is too old.
pub open spec fn expired_files(v: Seq<SpecEntry>, now: u64) -> Seq<Seq<char>>
    decreases v.len(),
{
    if v.len() == 0 {
        Seq::empty()
    } else if is_expired(v[0], now) {
        files_of(v[0]) + expired_files(v.drop_first(), now)
    } else {
        expired_files(v.drop_first(), now)
    }
}

/// The size of a history.
pub open spec fn total_bytes(v: Seq<SpecEntry>) -> int
    decreases v.len(),
{
    if v.len() == 0 {
        0
    } else {
        total_bytes(v.drop_last()) + v.last().bytes
    }
}

/// There is too much of it.
pub open spec fn is_over(v: Seq<SpecEntry>) -> bool {
    v.len() > MAX_ENTRIES || total_bytes(v) > MAX_TOTAL_BYTES
}

/// The place of the oldest entry that is not pinned, or -1.
pub open spec fn last_unpinned(v: Seq<SpecEntry>) -> int
    decreases v.len(),
{
    if v.len() == 0 {
        -1
    } else if !v.last().pinned {
        v.len() - 1
    } else {
        last_unpinned(v.drop_last())
    }
}

/// The place of the oldest entry that is not pinned lies in the history.
proof fn lemma_last_unpinned(v: Seq<SpecEntry>)
    ensures
        -1 <= last_unpinned(v) < v.len(),
        last_unpinned(v) >= 0 ==> !v[last_unpinned(v)].pinned,
        forall|j: int| last_unpinned(v) < j < v.len() ==> (#[trigger] v[j]).pinned,
    decreases v.len(),
{
    if v.len() > 0 && v.last().pinned {
        lemma_last_unpinned(v.drop_last());
        assert forall|j: int| last_unpinned(v) < j < v.len() implies (#[trigger] v[j]).pinned by {
            if j < v.len() - 1 {
                assert(v.drop_last()[j].pinned);
            }
        }
    }
}

/// The history once the oldest entries that are not pinned are gone, as many as
/// there are too many. Pinned ones stay, whatever the limits.
pub open spec fn cut(v: Seq<SpecEntry>) -> Seq<SpecEntry>
    decreases v.len(),
{
    let at = last_unpinned(v);
    if is_over(v) && 0 <= at < v.len() {
        cut(v.remove(at))
    } else {
        v
    }
}

/// The files of what was cut.
pub open spec fn cut_files(v: Seq<SpecEntry>) -> Seq<Seq<char>>
    decreases v.len(),
{
    let at = last_unpinned(v);
    if is_over(v) && 0 <= at < v.len() {
        files_of(v[at]) + cut_files(v.remove(at))
    } else {
        Seq::empty()
    }
}

/// What is kept of a history at the time `now`.
pub open spec fn kept(v: Seq<SpecEntry>, now: u64) -> Seq<SpecEntry> {
    cut(unexpired(v, now))
}

/// The size of a history.
fn size_of(v: &Vec<ClipEntry>) -> (r: u128)
    ensures
        r == total_bytes(entry_views(v@)),
{
    let ghost views = entry_views(v@);
    let mut total: u128 = 0;
    let mut i: usize = 0;
    assert(views.take(0) =~= Seq::<SpecEntry>::empty());
    while i < v.len()
        invariant
            i <= v@.len(),
            views == entry_views(v@),
            total == total_bytes(views.take(i as int)),
            total <= i * 0xffff_ffff_ffff_ffff,
        decreases v.len() - i,
    {
        assert(views.take(i + 1).drop_last() =~= views.take(i as int));
        assert(views.take(i + 1).last() == v@[i as int]@);
        assert(i * 0xffff_ffff_ffff_ffff + 0xffff_ffff_ffff_ffff == (i + 1)
            * 0xffff_ffff_ffff_ffff);
        assert(total + v@[i as int].bytes <= u128::MAX);
        total = total + v[i].bytes as u128;
        i += 1;
    }
    assert(views.take(views.len() as int) =~= views);
    total
}

/// The place of the oldest entry that is not pinned.
fn oldest_unpinned(v: &Vec<ClipEntry>) -> (r: Option<usize>)
    ensures
        match r {
            Some(i) => i < v@.len() && i == last_unpinned(entry_views(v@)),
            None => last_unpinned(entry_views(v@)) < 0,
        },
{
    let ghost views = entry_views(v@);
    let mut n: usize = v.len();
    assert(views.take(n as int) =~= views);
    while n > 0
        invariant
            n <= v@.len(),
            views == entry_views(v@),
            last_unpinned(views) == last_unpinned(views.take(n as int)),
        decreases n,
    {
        assert(views.take(n as int).last() == v@[n - 1]@);
        assert(views.take(n as int).drop_last() =~= views.take(n - 1));
        if !v[n - 1].pinned {
            return Some(n - 1);
        }
        n -= 1;
    }
    None
}

/// Appends the file of an entry, when it has one.
fn note_file(files: &mut Vec<String>, e: ClipEntry)
    ensures
        text::texts(final(files)@) == text::texts(old(files)@) + files_of(e@),
{
    match e.file {
        Some(f) => {
            files.push(f);
        },
        None => {},
    }
    assert(text::texts(files@) =~= text::texts(old(files)@) + files_of(e@));
}

/// Forgets what is too old.
fn expire(entries: &mut Vec<ClipEntry>, now: u64, files: &mut Vec<String>)
    ensures
        entry_views(final(entries)@) == unexpired(entry_views(old(entries)@), now),
        text::texts(final(files)@) == text::texts(old(files)@) + expired_files(
            entry_views(old(entries)@),
            now,
        ),
{
    let ghost all = entry_views(entries@);
    let ghost named = text::texts(files@);
    let horizon: u64 = now.saturating_sub(MAX_AGE_MS);
    let mut i: usize = 0;
    assert(entry_views(entries@).skip(0) =~= all);
    assert(entry_views(entries@).take(0) + unexpired(all, now) =~= unexpired(all, now));
    assert(named + expired_files(all, now) =~= text::texts(files@) + expired_files(all, now));
    while i < entries.len()
        invariant
            i <= entries@.len(),
            horizon == if now >= MAX_AGE_MS {
                now - MAX_AGE_MS
            } else {
                0
            },
            entry_views(entries@).take(i as int) + unexpired(
                entry_views(entries@).skip(i as int),
                now,
            ) == unexpired(all, now),
            text::texts(files@) + expired_files(entry_views(entries@).skip(i as int), now) == named
                + expired_files(all, now),
        decreases entries.len() - i,
    {
        let ghost views = entry_views(entries@);
        let ghost rest = views.skip(i as int);
        let ghost before = text::texts(files@);
        assert(rest[0] == entries@[i as int]@);
        assert(rest.drop_first() =~= views.skip(i + 1));
        let old_enough = now > 0 && !entries[i].pinned && entries[i].ts_ms <= horizon;
        if old_enough {
            let e = entries.remove(i);
            let ghost ev = e@;
            note_file(files, e);
            proof {
                assert(entry_views(entries@) =~= views.remove(i as int));
                assert(entry_views(entries@).take(i as int) =~= views.take(i as int));
                assert(entry_views(entries@).skip(i as int) =~= rest.drop_first());
                assert(text::texts(files@) + expired_files(rest.drop_first(), now) =~= before + (
                files_of(ev) + expired_files(rest.drop_first(), now)));
            }
        } else {
            proof {
                assert(views.take(i + 1) + unexpired(rest.drop_first(), now) =~= views.take(i as int)
                    + (seq![rest[0]] + unexpired(rest.drop_first(), now)));
            }
            i += 1;
        }
    }
    assert(entry_views(entries@).skip(i as int) =~= Seq::<SpecEntry>::empty());
    assert(entry_views(entries@).take(i as int) + Seq::<SpecEntry>::empty() =~= entry_views(
        entries@,
    ));
    assert(text::texts(files@) + Seq::<Seq<char>>::empty() =~= text::texts(files@));
}

/// Brings the history within its limits, by age first, then by number and size,
/// the oldest first; what is pinned stays. The files of what went are handed
/// back, to be deleted.
pub fn evict(entries: &mut Vec<ClipEntry>, now: u64) -> (r: Vec<String>)
    ensures
        entry_views(final(entries)@) == kept(entry_views(old(entries)@), now),
        text::texts(r@) == expired_files(entry_views(old(entries)@), now) + cut_files(
            unexpired(entry_views(old(entries)@), now),
        ),
{
    let ghost all = entry_views(entries@);
    let mut files: Vec<String> = Vec::new();
    assert(text::texts(files@) =~= Seq::<Seq<char>>::empty());
    expire(entries, now, &mut files);
    let ghost young = unexpired(all, now);
    assert(text::texts(files@) =~= expired_files(all, now));
    loop
        invariant
            cut(entry_views(entries@)) == cut(young),
            text::texts(files@) + cut_files(entry_views(entries@)) == expired_files(all, now)
                + cut_files(young),
        ensures
            entry_views(entries@) == cut(young),
            text::texts(files@) == expired_files(all, now) + cut_files(young),
        decreases entries.len(),
    {
        let ghost views = entry_views(entries@);
        let total: u128 = size_of(entries);
        let over = entries.len() > MAX_ENTRIES || total > MAX_TOTAL_BYTES as u128;
        let at = oldest_unpinned(entries);
        if !over {
            assert(text::texts(files@) + Seq::<Seq<char>>::empty() =~= text::texts(files@));
            break;
        }
        match at {
            None => {
                assert(text::texts(files@) + Seq::<Seq<char>>::empty() =~= text::texts(files@));
                break;
            },
            Some(i) => {
                let ghost before = text::texts(files@);
                let e = entries.remove(i);
                let ghost ev = e@;
                note_file(&mut files, e);
                proof {
                    assert(entry_views(entries@) =~= views.remove(i as int));
                    assert(text::texts(files@) + cut_files(views.remove(i as int)) =~= before + (
                    files_of(ev) + cut_files(views.remove(i as int))));
                }
            },
        }
    }
    files
}

/// Cutting ends within the limits, unless everything that is left is pinned.
pub proof fn lemma_cut_is_within_limits(v: Seq<SpecEntry>)
    ensures
        !is_over(cut(v)) || forall|j: int| 0 <= j < cut(v).len() ==> (#[trigger] cut(v)[j]).pinned,
    decreases v.len(),
{
    lemma_last_unpinned(v);
    if is_over(v) && last_unpinned(v) >= 0 {
        lemma_cut_is_within_limits(v.remove(last_unpinned(v)));
    }
}

/// What is pinned is never forgotten.
pub proof fn lemma_pinned_is_kept(v: Seq<SpecEntry>, now: u64, e: SpecEntry)
    requires
        v.contains(e),
        e.pinned,
    ensures
        kept(v, now).contains(e),
{
    lemma_unexpired_keeps(v, now, e);
    lemma_cut_keeps(unexpired(v, now), e);
}

proof fn lemma_unexpired_keeps(v: Seq<SpecEntry>, now: u64, e: SpecEntry)
    requires
        v.contains(e),
        !is_expired(e, now),
    ensures
        unexpired(v, now).contains(e),
    decreases v.len(),
{
    let i = choose|i: int| 0 <= i < v.len() && v[i] == e;
    let rest = unexpired(v.drop_first(), now);
    if i == 0 {
        assert((seq![v[0]] + rest)[0] == e);
    } else {
        assert(v.drop_first()[i - 1] == e);
        lemma_unexpired_keeps(v.drop_first(), now, e);
        let k = choose|k: int| 0 <= k < rest.len() && rest[k] == e;
        assert((seq![v[0]] + rest)[k + 1] == e);
    }
}

proof fn lemma_cut_keeps(v: Seq<SpecEntry>, e: SpecEntry)
    requires
        v.contains(e),
        e.pinned,
    ensures
        cut(v).contains(e),
    decreases v.len(),
{
    let at = last_unpinned(v);
    lemma_last_unpinned(v);
    if is_over(v) && at >= 0 {
        let i = choose|i: int| 0 <= i < v.len() && v[i] == e;
        let rest = v.remove(at);
        if i < at {
            assert(rest[i] == e);
        } else {
            assert(rest[i - 1] == e);
        }
        lemma_cut_keeps(rest, e);
    }
}

/// Nothing that is past its week and not pinned is kept, however much room there
/// is.
pub proof fn lemma_expired_is_gone(v: Seq<SpecEntry>, now: u64)
    ensures
        forall|j: int| 0 <= j < kept(v, now).len() ==> !is_expired(#[trigger] kept(v, now)[j], now),
{
    lemma_unexpired_is_fresh(v, now);
    lemma_cut_is_part(unexpired(v, now), now);
}

proof fn lemma_unexpired_is_fresh(v: Seq<SpecEntry>, now: u64)
    ensures
        forall|j: int|
            0 <= j < unexpired(v, now).len() ==> !is_expired(#[trigger] unexpired(v, now)[j], now),
    decreases v.len(),
{
    if v.len() > 0 {
        let rest = unexpired(v.drop_first(), now);
        lemma_unexpired_is_fresh(v.drop_first(), now);
        assert forall|j: int| 0 <= j < unexpired(v, now).len() implies !is_expired(
            #[trigger] unexpired(v, now)[j],
            now,
        ) by {
            if is_expired(v[0], now) {
                assert(!is_expired(rest[j], now));
            } else if j > 0 {
                assert(unexpired(v, now)[j] == rest[j - 1]);
            }
        }
    }
}

proof fn lemma_cut_is_part(v: Seq<SpecEntry>, now: u64)
    requires
        forall|j: int| 0 <= j < v.len() ==> !is_expired(#[trigger] v[j], now),
    ensures
        forall|j: int| 0 <= j < cut(v).len() ==> !is_expired(#[trigger] cut(v)[j], now),
    decreases v.len(),
{
    let at = last_unpinned(v);
    lemma_last_unpinned(v);
    if is_over(v) && at >= 0 {
        let rest = v.remove(at);
        assert forall|j: int| 0 <= j < rest.len() implies !is_expired(#[trigger] rest[j], now) by {
            if j < at {
                assert(rest[j] == v[j]);
            } else {
                assert(rest[j] == v[j + 1]);
            }
        }
        lemma_cut_is_part(rest, now);
        assert(cut(v) == cut(rest));
    } else {
        assert(cut(v) == v);
    }
}

/// The entries of `v` that are not too old and are pinned or stand before the place
/// `end`, in their order.
pub open spec fn spared(v: Seq<SpecEntry>, now: u64, end: int) -> Seq<SpecEntry>
    decreases v.len(),
{
    if v.len() == 0 {
        v
    } else {
        let before = spared(v.drop_last(), now, end);
        let e = v.last();
        if !is_expired(e, now) && (e.pinned || v.len() <= end) {
            before.push(e)
        } else {
            before
        }
    }
}

proof fn lemma_spared_alike(v: Seq<SpecEntry>, now: u64, a: int, b: int)
    requires
        a <= b,
        forall|i: int|
            a <= i < b && 0 <= i < v.len() ==> (#[trigger] v[i]).pinned || is_expired(v[i], now),
    ensures
        spared(v, now, a) == spared(v, now, b),
    decreases v.len(),
{
    if v.len() > 0 {
        let d = v.drop_last();
        assert forall|i: int| a <= i < b && 0 <= i < d.len() implies (#[trigger] d[i]).pinned
            || is_expired(d[i], now) by {
            assert(d[i] == v[i]);
        }
        lemma_spared_alike(d, now, a, b);
        assert(v.last() == v[v.len() - 1]);
    }
}

proof fn lemma_spared_pinned(v: Seq<SpecEntry>, now: u64)
    ensures
        last_unpinned(spared(v, now, 0)) == -1,
    decreases v.len(),
{
    if v.len() > 0 {
        let before = spared(v.drop_last(), now, 0);
        lemma_spared_pinned(v.drop_last(), now);
        assert(before.push(v.last()).drop_last() =~= before);
    }
}

proof fn lemma_spared_step(v: Seq<SpecEntry>, now: u64, end: int)
    requires
        0 < end <= v.len(),
        !v[end - 1].pinned,
        !is_expired(v[end - 1], now),
    ensures
        last_unpinned(spared(v, now, end)) >= 0,
        spared(v, now, end).remove(last_unpinned(spared(v, now, end))) == spared(v, now, end - 1),
    decreases v.len(),
{
    let d = v.drop_last();
    let e = v.last();
    let more = spared(d, now, end);
    let less = spared(d, now, end - 1);
    if end == v.len() {
        lemma_spared_alike(d, now, end - 1, end);
        assert(more.push(e).remove(more.len() as int) =~= more);
    } else {
        assert(d[end - 1] == v[end - 1]);
        lemma_spared_step(d, now, end);
        lemma_last_unpinned(more);
        let at = last_unpinned(more);
        if !is_expired(e, now) && e.pinned {
            assert(more.push(e).drop_last() =~= more);
            assert(last_unpinned(more.push(e)) == at);
            assert(more.push(e).remove(at) =~= more.remove(at).push(e));
        }
    }
}

proof fn lemma_unexpired_push(w: Seq<SpecEntry>, e: SpecEntry, now: u64)
    ensures
        unexpired(w.push(e), now) == if is_expired(e, now) {
            unexpired(w, now)
        } else {
            unexpired(w, now).push(e)
        },
    decreases w.len(),
{
    let all = w.push(e);
    if w.len() == 0 {
        assert(all.drop_first() =~= w);
        assert(seq![e] + w =~= w.push(e));
    } else {
        lemma_unexpired_push(w.drop_first(), e, now);
        assert(all.drop_first() =~= w.drop_first().push(e));
        let rest = unexpired(w.drop_first(), now);
        assert(seq![w[0]] + rest.push(e) =~= (seq![w[0]] + rest).push(e));
    }
}

proof fn lemma_unexpired_is_spared(v: Seq<SpecEntry>, now: u64)
    ensures
        unexpired(v, now) == spared(v, now, v.len() as int),
    decreases v.len(),
{
    if v.len() > 0 {
        let d = v.drop_last();
        lemma_unexpired_is_spared(d, now);
        lemma_spared_alike(d, now, d.len() as int, v.len() as int);
        lemma_unexpired_push(d, v.last(), now);
        assert(d.push(v.last()) =~= v);
    }
}

/// The unpinned entries up to `end` are as many as there is room for: the next one
/// was dropped because with it there would be too much.
pub open spec fn is_full(v: Seq<SpecEntry>, now: u64, end: int) -> bool {
    &&& !v[end].pinned
    &&& !is_expired(v[end], now)
    &&& is_over(spared(v, now, end + 1))
}

proof fn lemma_cut_spared(v: Seq<SpecEntry>, now: u64, end: int) -> (e: int)
    requires
        0 <= end <= v.len(),
    ensures
        0 <= e <= end,
        cut(spared(v, now, end)) == spared(v, now, e),
        e < end ==> is_full(v, now, e),
    decreases end,
{
    if end == 0 {
        lemma_spared_pinned(v, now);
        0
    } else if v[end - 1].pinned || is_expired(v[end - 1], now) {
        lemma_spared_alike(v, now, end - 1, end);
        let e = lemma_cut_spared(v, now, end - 1);
        if e == end - 1 {
            end
        } else {
            e
        }
    } else {
        lemma_spared_step(v, now, end);
        lemma_last_unpinned(spared(v, now, end));
        if is_over(spared(v, now, end)) {
            lemma_cut_spared(v, now, end - 1)
        } else {
            end
        }
    }
}

/// What is kept of a history: of the entries that are not too old the pinned ones,
/// and of the others the newest, up to a place; all of them in their order. The
/// oldest are dropped first, and no more of them than had to be: either all of them
/// are kept, or with the newest of those that were dropped there would be too much.
pub proof fn lemma_oldest_goes_first(v: Seq<SpecEntry>, now: u64)
    ensures
        exists|end: int|
            {
                &&& 0 <= end <= v.len()
                &&& kept(v, now) == #[trigger] spared(v, now, end)
                &&& end < v.len() ==> is_full(v, now, end)
            },
{
    lemma_unexpired_is_spared(v, now);
    let end = lemma_cut_spared(v, now, v.len() as int);
    assert(kept(v, now) == spared(v, now, end));
}

/// A history within its limits loses nothing but what is too old.
pub proof fn lemma_within_limits_is_kept(v: Seq<SpecEntry>, now: u64)
    requires
        !is_over(unexpired(v, now)),
    ensures
        kept(v, now) == unexpired(v, now),
{
}

// ---------------------------------------------------------------------------
// Taking in
// ---------------------------------------------------------------------------

/// The place of the entry with this name, or the number of entries.
pub open spec fn place_of(v: Seq<SpecEntry>, id: Seq<char>) -> int
    decreases v.len(),
{
    if v.len() == 0 || v[0].id == id {
        0
    } else {
        1 + place_of(v.drop_first(), id)
    }
}

/// The history with the entry at `at` brought to the front.
pub open spec fn surfaced(v: Seq<SpecEntry>, at: int) -> Seq<SpecEntry> {
    seq![v[at]] + v.remove(at)
}

/// The name of a copy: that of its text, or that of its picture.
pub open spec fn capture_name(text: Option<Seq<char>>, png: Option<Seq<u8>>) -> Option<Seq<char>> {
    match (text, png) {
        (Some(t), _) => Some(name_of(utf8::encode_utf8(t))),
        (None, Some(p)) => Some(name_of(p)),
        (None, None) => None,
    }
}

/// The entry of a new copy.
pub open spec fn new_entry(
    kind: Seq<char>,
    text: Option<Seq<char>>,
    png: Option<Seq<u8>>,
    now: u64,
) -> SpecEntry {
    let id = capture_name(text, png)->0;
    ClipEntry {
        id,
        kind,
        text,
        file: match png {
            Some(_) => Some(id + ".png"@),
            None => None,
        },
        bytes: match png {
            Some(p) => p.len() as u64,
            None => match text {
                Some(t) => utf8::encode_utf8(t).len() as u64,
                None => 0,
            },
        },
        ts_ms: now,
        pinned: false,
    }
}

/// What optional bytes say.
pub open spec fn bytes_view(b: Option<Vec<u8>>) -> Option<Seq<u8>> {
    match b {
        Some(v) => Some(v@),
        None => None,
    }
}

/// The place of the entry with this name.
fn find_entry(entries: &Vec<ClipEntry>, id: &str) -> (r: Option<usize>)
    ensures
        match r {
            Some(i) => i < entries@.len() && i == place_of(entry_views(entries@), id@)
                && entry_views(entries@)[i as int].id == id@,
            None => place_of(entry_views(entries@), id@) >= entries@.len(),
        },
{
    let ghost views = entry_views(entries@);
    let mut i: usize = 0;
    assert(views.skip(0) =~= views);
    while i < entries.len()
        invariant
            i <= entries@.len(),
            views == entry_views(entries@),
            place_of(views, id@) == i + place_of(views.skip(i as int), id@),
        decreases entries.len() - i,
    {
        assert(views.skip(i as int)[0] == entries@[i as int]@);
        assert(views.skip(i as int).drop_first() =~= views.skip(i + 1));
        if same_text(entries[i].id.as_str(), id) {
            return Some(i);
        }
        i += 1;
    }
    None
}

/// Brings the entry at `at` to the front.
fn bring_forward(entries: &mut Vec<ClipEntry>, at: usize)
    requires
        at < old(entries)@.len(),
    ensures
        entry_views(final(entries)@) == surfaced(entry_views(old(entries)@), at as int),
{
    let e = entries.remove(at);
    entries.insert(0, e);
    assert(entry_views(entries@) =~= surfaced(entry_views(old(entries)@), at as int));
}

/// The name of a copy.
fn capture_id(text: &Option<String>, png: &Option<Vec<u8>>) -> (r: Option<String>)
    ensures
        text::maybe(r) == capture_name(text::maybe(*text), bytes_view(*png)),
{
    match text {
        Some(t) => Some(hash_id(t.as_str().as_bytes())),
        None => match png {
            Some(p) => Some(hash_id(p.as_slice())),
            None => None,
        },
    }
}

/// The name of the file that a copy needs before it can be taken in: a picture
/// that the history does not hold yet.
pub fn file_needed(entries: &Vec<ClipEntry>, text: &Option<String>, png: &Option<Vec<u8>>) -> (r:
    Option<String>)
    ensures
        ({
            let id = capture_name(text::maybe(*text), bytes_view(*png));
            text::maybe(r) == if png is Some && id is Some && place_of(
                entry_views(entries@),
                id->0,
            ) >= entries@.len() {
                Some(id->0 + ".png"@)
            } else {
                None
            }
        }),
{
    match capture_id(text, png) {
        Some(id) => {
            if png.is_none() || find_entry(entries, id.as_str()).is_some() {
                None
            } else {
                let mut name = id;
                name.append(".png");
                Some(name)
            }
        },
        None => None,
    }
}

/// What taking in a copy does to the history: whether the list changed, and the
/// list. `written` says whether the picture's file could be written.
pub open spec fn captured(
    v: Seq<SpecEntry>,
    kind: Seq<char>,
    text: Option<Seq<char>>,
    png: Option<Seq<u8>>,
    written: bool,
    now: u64,
) -> (bool, Seq<SpecEntry>) {
    match capture_name(text, png) {
        None => (false, v),
        Some(id) => {
            let at = place_of(v, id);
            if at < v.len() {
                if at == 0 {
                    (false, v)
                } else {
                    (true, surfaced(v, at))
                }
            } else if png is Some && !written {
                (false, v)
            } else {
                (true, kept(seq![new_entry(kind, text, png, now)] + v, now))
            }
        },
    }
}

/// Takes in a copy. Content that the history holds already comes to the front;
/// new content is put there, and the history is brought within its limits.
/// Returns whether the list changed, and the files that are to be deleted.
pub fn store_capture(
    entries: &mut Vec<ClipEntry>,
    kind: &str,
    text: Option<String>,
    png: Option<Vec<u8>>,
    written: bool,
    now: u64,
) -> (r: (bool, Vec<String>))
    ensures
        (r.0, entry_views(final(entries)@)) == captured(
            entry_views(old(entries)@),
            kind@,
            text::maybe(text),
            bytes_view(png),
            written,
            now,
        ),
        ({
            let v = entry_views(old(entries)@);
            let id = capture_name(text::maybe(text), bytes_view(png));
            let grown = seq![new_entry(kind@, text::maybe(text), bytes_view(png), now)] + v;
            text::texts(r.1@) == if id is Some && place_of(v, id->0) >= v.len() && (png is None
                || written) {
                expired_files(grown, now) + cut_files(unexpired(grown, now))
            } else {
                Seq::empty()
            }
        }),
{
    let none: Vec<String> = Vec::new();
    assert(text::texts(none@) =~= Seq::<Seq<char>>::empty());
    let ghost views = entry_views(entries@);
    let ghost entry = new_entry(kind@, text::maybe(text), bytes_view(png), now);
    let id = match capture_id(&text, &png) {
        Some(id) => id,
        None => return (false, none),
    };
    match find_entry(entries, id.as_str()) {
        Some(at) => {
            if at == 0 {
                return (false, none);
            }
            bring_forward(entries, at);
            return (true, none);
        },
        None => {},
    }
    let (file, bytes): (Option<String>, u64) = match &png {
        Some(p) => {
            if !written {
                return (false, none);
            }
            let mut name = id.as_str().to_string();
            name.append(".png");
            (Some(name), p.len() as u64)
        },
        None => (
            None,
            match &text {
                Some(t) => t.as_str().as_bytes().len() as u64,
                None => 0,
            },
        ),
    };
    let e = ClipEntry {
        id,
        kind: kind.to_string(),
        text,
        file,
        bytes,
        ts_ms: now,
        pinned: false,
    };
    assert(e@ == entry);
    entries.insert(0, e);
    assert(entry_views(entries@) =~= seq![entry] + views);
    let files = evict(entries, now);
    (true, files)
}

/// No two entries have the same name.
pub open spec fn all_distinct(v: Seq<SpecEntry>) -> bool {
    forall|i: int, j: int| 0 <= i < j < v.len() ==> (#[trigger] v[i]).id != (#[trigger] v[j]).id
}

/// The same content is kept once: taking in a copy never gives two entries the
/// same name.
pub proof fn lemma_no_duplicates(
    v: Seq<SpecEntry>,
    kind: Seq<char>,
    text: Option<Seq<char>>,
    png: Option<Seq<u8>>,
    written: bool,
    now: u64,
)
    requires
        all_distinct(v),
    ensures
        all_distinct(captured(v, kind, text, png, written, now).1),
{
    match capture_name(text, png) {
        None => {},
        Some(id) => {
            let at = place_of(v, id);
            lemma_place(v, id);
            if at < v.len() {
                if at > 0 {
                    let w = surfaced(v, at);
                    assert forall|i: int, j: int| 0 <= i < j < w.len() implies (#[trigger] w[i]).id
                        != (#[trigger] w[j]).id by {
                        let bi = if i == 0 {
                            at
                        } else if i <= at {
                            i - 1
                        } else {
                            i
                        };
                        let bj = if j <= at {
                            j - 1
                        } else {
                            j
                        };
                        assert(w[i] == v[bi] && w[j] == v[bj] && bi != bj);
                        if bi < bj {
                            assert(v[bi].id != v[bj].id);
                        } else {
                            assert(v[bj].id != v[bi].id);
                        }
                    }
                }
            } else {
                let e = new_entry(kind, text, png, now);
                let grown = seq![e] + v;
                assert forall|i: int, j: int| 0 <= i < j < grown.len() implies (
                #[trigger] grown[i]).id != (#[trigger] grown[j]).id by {
                    assert(grown[j] == v[j - 1]);
                    if i > 0 {
                        assert(grown[i] == v[i - 1]);
                    }
                }
                lemma_unexpired_distinct(grown, now);
                lemma_cut_distinct(unexpired(grown, now));
            }
        },
    }
}

/// What the place of a name says.
proof fn lemma_place(v: Seq<SpecEntry>, id: Seq<char>)
    ensures
        0 <= place_of(v, id) <= v.len(),
        place_of(v, id) < v.len() ==> v[place_of(v, id)].id == id,
        forall|j: int| 0 <= j < place_of(v, id) ==> (#[trigger] v[j]).id != id,
    decreases v.len(),
{
    if v.len() > 0 && v[0].id != id {
        lemma_place(v.drop_first(), id);
        assert forall|j: int| 0 <= j < place_of(v, id) implies (#[trigger] v[j]).id != id by {
            if j > 0 {
                assert(v.drop_first()[j - 1].id != id);
            }
        }
    }
}

proof fn lemma_unexpired_distinct(v: Seq<SpecEntry>, now: u64)
    requires
        all_distinct(v),
    ensures
        all_distinct(unexpired(v, now)),
        forall|j: int|
            0 <= j < unexpired(v, now).len() ==> v.contains(#[trigger] unexpired(v, now)[j]),
    decreases v.len(),
{
    if v.len() > 0 {
        let tl = v.drop_first();
        let rest = unexpired(tl, now);
        assert forall|i: int, j: int| 0 <= i < j < tl.len() implies (#[trigger] tl[i]).id != (
        #[trigger] tl[j]).id by {
            assert(v[i + 1].id != v[j + 1].id);
        }
        lemma_unexpired_distinct(tl, now);
        let all = unexpired(v, now);
        assert forall|j: int| 0 <= j < all.len() implies v.contains(#[trigger] all[j]) by {
            if is_expired(v[0], now) {
                assert(tl.contains(rest[j]));
                let k = choose|k: int| 0 <= k < tl.len() && tl[k] == rest[j];
                assert(v[k + 1] == rest[j]);
            } else if j > 0 {
                assert(tl.contains(rest[j - 1]));
                let k = choose|k: int| 0 <= k < tl.len() && tl[k] == rest[j - 1];
                assert(v[k + 1] == rest[j - 1]);
                assert(all[j] == rest[j - 1]);
            } else {
                assert(all[0] == v[0]);
            }
        }
        if !is_expired(v[0], now) {
            assert forall|i: int, j: int| 0 <= i < j < all.len() implies (#[trigger] all[i]).id != (
            #[trigger] all[j]).id by {
                assert(all[j] == rest[j - 1]);
                if i == 0 {
                    assert(tl.contains(rest[j - 1]));
                    let k = choose|k: int| 0 <= k < tl.len() && tl[k] == rest[j - 1];
                    assert(v[0].id != v[k + 1].id);
                } else {
                    assert(all[i] == rest[i - 1]);
                }
            }
        }
    }
}

proof fn lemma_cut_distinct(v: Seq<SpecEntry>)
    requires
        all_distinct(v),
    ensures
        all_distinct(cut(v)),
    decreases v.len(),
{
    let at = last_unpinned(v);
    lemma_last_unpinned(v);
    if is_over(v) && at >= 0 {
        let rest = v.remove(at);
        assert forall|i: int, j: int| 0 <= i < j < rest.len() implies (#[trigger] rest[i]).id != (
        #[trigger] rest[j]).id by {
            let bi = if i < at {
                i
            } else {
                i + 1
            };
            let bj = if j < at {
                j
            } else {
                j + 1
            };
            assert(rest[i] == v[bi] && rest[j] == v[bj]);
            assert(v[bi].id != v[bj].id);
        }
        lemma_cut_distinct(rest);
    }
}

// ---------------------------------------------------------------------------
// Looking at the clipboard
// ---------------------------------------------------------------------------

/// What asking the clipboard for text gave.
#[derive(Debug)]
pub enum TextRead<S = String> {
    Text(S),
    /// The clipboard holds no text.
    NotText,
    Error(S),
}

impl View for TextRead {
    type V = TextRead<Seq<char>>;

    open spec fn view(&self) -> TextRead<Seq<char>> {
        match self {
            TextRead::Text(t) => TextRead::Text(t@),
            TextRead::NotText => TextRead::NotText,
            TextRead::Error(e) => TextRead::Error(e@),
        }
    }
}

/// What asking the clipboard for a picture gave.
#[derive(Debug)]
pub enum ImageRead<S = String, B = Vec<u8>> {
    Image { width: usize, height: usize, rgba: B },
    /// The clipboard holds no picture.
    NotImage,
    Error(S),
}

impl View for ImageRead {
    type V = ImageRead<Seq<char>, Seq<u8>>;

    open spec fn view(&self) -> ImageRead<Seq<char>, Seq<u8>> {
        match self {
            ImageRead::Image { width, height, rgba } => ImageRead::Image {
                width: *width,
                height: *height,
                rgba: rgba@,
            },
            ImageRead::NotImage => ImageRead::NotImage,
            ImageRead::Error(e) => ImageRead::Error(e@),
        }
    }
}

/// What was last seen on the clipboard. `state` tells one kind of read from the
/// next: 0 nothing, 1 text, 2 a picture, 3 a failure, 255 none yet.
pub struct ClipWatch<S = String> {
    pub last_sig: S,
    pub state: u8,
}

impl View for ClipWatch {
    type V = ClipWatch<Seq<char>>;

    open spec fn view(&self) -> ClipWatch<Seq<char>> {
        ClipWatch { last_sig: self.last_sig@, state: self.state }
    }
}

/// What follows asking for text.
#[derive(Debug, Clone, Copy, PartialEq, Eq, Structural)]
pub enum TextStep {
    /// It is what was there before.
    Same,
    /// It is new: find out whether it is a secret.
    Fresh,
    /// There is none: ask for a picture.
    TryImage,
}

/// What a text is recognised by on the next look.
pub open spec fn text_mark(t: Seq<char>) -> Seq<char> {
    "t:"@ + name_of(utf8::encode_utf8(t))
}

/// What a picture is recognised by on the next look.
pub open spec fn image_mark(width: usize, height: usize, rgba: Seq<u8>) -> Seq<char> {
    "i:"@ + text::decimal(width as nat) + "x"@ + text::decimal(height as nat) + ":"@ + name_of(rgba)
}

/// What follows asking for text. A text of white space alone counts as none: some
/// programs offer one beside a picture.
pub open spec fn text_step(w: ClipWatch<Seq<char>>, read: TextRead<Seq<char>>) -> (
    ClipWatch<Seq<char>>,
    TextStep,
) {
    match read {
        TextRead::Text(t) => if text::trimmed(t).len() > 0 {
            if w.last_sig == text_mark(t) {
                (ClipWatch { state: 1, ..w }, TextStep::Same)
            } else {
                (ClipWatch { last_sig: text_mark(t), state: 1 }, TextStep::Fresh)
            }
        } else {
            (w, TextStep::TryImage)
        },
        TextRead::NotText => (w, TextStep::TryImage),
        TextRead::Error(_) => (ClipWatch { state: 3, ..w }, TextStep::TryImage),
    }
}

/// What follows asking for a picture: `Some` is the mark under which a new one is
/// known to the phone.
pub open spec fn image_step(w: ClipWatch<Seq<char>>, read: ImageRead<Seq<char>, Seq<u8>>) -> (
    ClipWatch<Seq<char>>,
    Option<Seq<char>>,
) {
    match read {
        ImageRead::Image { width, height, rgba } => if w.last_sig == image_mark(width, height, rgba) {
            (ClipWatch { state: 2, ..w }, None)
        } else {
            (
                ClipWatch { last_sig: image_mark(width, height, rgba), state: 2 },
                Some(clipboard_sync::image_sig(width, height, rgba)),
            )
        },
        ImageRead::NotImage => (ClipWatch { state: 0, ..w }, None),
        ImageRead::Error(_) => (ClipWatch { state: 3, ..w }, None),
    }
}

impl ClipWatch {
    /// Nothing was seen yet.
    pub fn new() -> (r: Self)
        ensures
            r@ == (ClipWatch::<Seq<char>> { last_sig: ""@, state: 255 }),
    {
        ClipWatch { last_sig: "".to_string(), state: 255 }
    }

    /// Takes note of asking for text. The second value says whether the kind of
    /// read changed, which is worth a line in the log.
    pub fn on_text(&mut self, read: &TextRead) -> (r: (TextStep, bool))
        ensures
            (final(self)@, r.0) == text_step(old(self)@, read@),
            r.1 == (final(self)@.state != old(self)@.state),
    {
        let before: u8 = self.state;
        match read {
            TextRead::Text(t) => {
                let t_trimmed = trim(t.as_str());
                if chars_of(t_trimmed.as_str()).len() == 0 {
                    return (TextStep::TryImage, false);
                }
                self.state = 1;
                let mut sig = "t:".to_string();
                let name = hash_id(t.as_str().as_bytes());
                sig.append(name.as_str());
                if same_text(sig.as_str(), self.last_sig.as_str()) {
                    return (TextStep::Same, before != 1);
                }
                self.last_sig = sig;
                (TextStep::Fresh, before != 1)
            },
            TextRead::NotText => (TextStep::TryImage, false),
            TextRead::Error(_) => {
                self.state = 3;
                (TextStep::TryImage, before != 3)
            },
        }
    }

    /// Takes note of asking for a picture. The second value says whether the kind
    /// of read changed.
    pub fn on_image(&mut self, read: &ImageRead) -> (r: (Option<String>, bool))
        ensures
            (final(self)@, text::maybe(r.0)) == image_step(old(self)@, read@),
            r.1 == (final(self)@.state != old(self)@.state),
    {
        let before: u8 = self.state;
        match read {
            ImageRead::Image { width, height, rgba } => {
                self.state = 2;
                let mut sig = "i:".to_string();
                let w = decimal_text(*width as u64);
                sig.append(w.as_str());
                sig.append("x");
                let h = decimal_text(*height as u64);
                sig.append(h.as_str());
                sig.append(":");
                let name = hash_id(rgba.as_slice());
                sig.append(name.as_str());
                if same_text(sig.as_str(), self.last_sig.as_str()) {
                    return (None, before != 2);
                }
                self.last_sig = sig;
                (Some(img_sig(*width, *height, rgba.as_slice())), before != 2)
            },
            ImageRead::NotImage => {
                self.state = 0;
                (None, before != 0)
            },
            ImageRead::Error(_) => {
                self.state = 3;
                (None, before != 3)
            },
        }
    }
}

/// What is kept of a text that was copied: nothing of a secret, and otherwise the
/// tidied text, cut to length.
pub open spec fn clean_text(t: Seq<char>, secret: bool) -> Option<Seq<char>> {
    if secret {
        None
    } else {
        let tidy = clipboard_sync::tidied(t);
        Some(
            if tidy.len() > MAX_TEXT_CHARS {
                tidy.take(MAX_TEXT_CHARS as int)
            } else {
                tidy
            },
        )
    }
}

/// What is kept of a text that was copied.
pub fn captured_text(t: &str, secret: bool) -> (r: Option<String>)
    ensures
        text::maybe(r) == clean_text(t@, secret),
{
    if secret {
        return None;
    }
    let tidy = tidy_text(t);
    let chars = chars_of(tidy.as_str());
    if chars.len() > MAX_TEXT_CHARS {
        let r = text_between(&chars, 0, MAX_TEXT_CHARS);
        assert(r@ =~= clipboard_sync::tidied(t@).take(MAX_TEXT_CHARS as int));
        Some(r)
    } else {
        Some(tidy)
    }
}

/// What is kept of a picture once it is a file: one that is not too large.
pub fn accept_png(png: Option<Vec<u8>>) -> (r: Option<Vec<u8>>)
    ensures
        r == match png {
            Some(p) => if p@.len() <= MAX_IMAGE_BYTES {
                Some(p)
            } else {
                None
            },
            None => None,
        },
{
    match png {
        Some(p) => if p.len() > MAX_IMAGE_BYTES {
            None
        } else {
            Some(p)
        },
        None => None,
    }
}

/// What is kept of a picture that was copied: a PNG file that is not too large.
pub fn captured_image(width: usize, height: usize, rgba: Vec<u8>) -> (r: Option<Vec<u8>>)
    ensures
        bytes_view(r) == match codec::png_written(width as u32, height as u32, rgba@) {
            Some(p) => if p.len() <= MAX_IMAGE_BYTES {
                Some(p)
            } else {
                None
            },
            None => None,
        },
        r is Some ==> 4 * (width as u32) * (height as u32) <= rgba@.len(),
{
    accept_png(encode_png(width as u32, height as u32, rgba))
}

// ---------------------------------------------------------------------------
// Secrets
// ---------------------------------------------------------------------------

/// The type by which a password manager marks a copy as secret.
pub const SECRET_HINT: &'static str = "x-kde-passwordManagerHint";

/// How long the owner of the clipboard gets to answer, in milliseconds.
pub const PROBE_MS: u64 = 60;

/// What listing the types on a Wayland clipboard gave.
#[derive(Debug)]
pub enum OfferedTypes {
    Types(Vec<String>),
    /// The clipboard is empty.
    Empty,
    /// It could not be asked.
    Unavailable,
}

/// What a Wayland clipboard says about being a secret; `None` where it cannot be
/// asked.
pub open spec fn wayland_says(on_wayland: bool, offered: OfferedTypes) -> Option<bool> {
    if !on_wayland {
        None
    } else {
        match offered {
            OfferedTypes::Types(t) => Some(text::texts(t@).contains(SECRET_HINT@)),
            OfferedTypes::Empty => Some(false),
            OfferedTypes::Unavailable => None,
        }
    }
}

/// What a Wayland clipboard says about being a secret.
pub fn wayland_clipboard_is_secret(on_wayland: bool, offered: &OfferedTypes) -> (r: Option<bool>)
    ensures
        r == wayland_says(on_wayland, *offered),
{
    if !on_wayland {
        return None;
    }
    match offered {
        OfferedTypes::Types(types) => {
            let mut i: usize = 0;
            while i < types.len()
                invariant
                    i <= types@.len(),
                    on_wayland,
                    *offered == OfferedTypes::Types(*types),
                    forall|j: int| 0 <= j < i ==> text::texts(types@)[j] != SECRET_HINT@,
                decreases types.len() - i,
            {
                if same_text(types[i].as_str(), SECRET_HINT) {
                    assert(text::texts(types@)[i as int] == SECRET_HINT@);
                    return Some(true);
                }
                i += 1;
            }
            Some(false)
        },
        OfferedTypes::Empty => Some(false),
        OfferedTypes::Unavailable => None,
    }
}

/// The value of the mark is the word that makes a copy secret. Other programs
/// answer a type that they do not know with the copied text itself, so that any
/// other value means nothing.
pub open spec fn value_is_secret(value: Seq<u8>) -> bool {
    utf8::valid_utf8(value) && text::ascii_lowered(text::trimmed(utf8::decode_utf8(value)))
        == "secret"@
}

/// Whether the value of the mark is the word that makes a copy secret.
pub fn hint_says_secret(value: &[u8]) -> (r: bool)
    ensures
        r == value_is_secret(value@),
{
    match utf8_text(value) {
        Some(t) => {
            let word = trim(t.as_str());
            let lower = to_ascii_lowercase(word.as_str());
            same_text(lower.as_str(), "secret")
        },
        None => false,
    }
}

/// What the X server said to a probe.
#[derive(Debug)]
pub enum ProbeEvent<B = Vec<u8>> {
    /// The connection failed.
    Error,
    /// The owner of the clipboard answered; without a property it has no such
    /// mark.
    Answered { property: u32 },
    /// Something else happened.
    Other,
    /// Nothing happened up to this time.
    Quiet { now: u64 },
    /// The value of the mark, when it could be read.
    Value(Option<B>),
}

impl View for ProbeEvent {
    type V = ProbeEvent<Seq<u8>>;

    open spec fn view(&self) -> ProbeEvent<Seq<u8>> {
        match self {
            ProbeEvent::Error => ProbeEvent::Error,
            ProbeEvent::Answered { property } => ProbeEvent::Answered { property: *property },
            ProbeEvent::Other => ProbeEvent::Other,
            ProbeEvent::Quiet { now } => ProbeEvent::Quiet { now: *now },
            ProbeEvent::Value(v) => ProbeEvent::Value(
                match v {
                    Some(b) => Some(b@),
                    None => None,
                },
            ),
        }
    }
}

/// What a probe does next.
#[derive(Debug, Clone, Copy, PartialEq, Eq, Structural)]
pub enum ProbeStep {
    /// Look for the next event.
    Poll,
    /// Sleep for two milliseconds, then look for the next event.
    Sleep,
    /// Read the value of the mark.
    ReadValue,
    /// It is settled.
    Settled { secret: bool },
}

/// What a probe with this deadline does next.
pub open spec fn probe_step(deadline: u64, ev: ProbeEvent<Seq<u8>>) -> ProbeStep {
    match ev {
        ProbeEvent::Error => ProbeStep::Settled { secret: false },
        ProbeEvent::Answered { property } => if property == 0 {
            ProbeStep::Settled { secret: false }
        } else {
            ProbeStep::ReadValue
        },
        ProbeEvent::Other => ProbeStep::Poll,
        ProbeEvent::Quiet { now } => if now >= deadline {
            ProbeStep::Settled { secret: false }
        } else {
            ProbeStep::Sleep
        },
        ProbeEvent::Value(v) => ProbeStep::Settled {
            secret: match v {
                Some(b) => value_is_secret(b),
                None => false,
            },
        },
    }
}

/// What a probe with this deadline does next.
pub fn probe(deadline: u64, ev: &ProbeEvent) -> (r: ProbeStep)
    ensures
        r == probe_step(deadline, ev@),
{
    match ev {
        ProbeEvent::Error => ProbeStep::Settled { secret: false },
        ProbeEvent::Answered { property } => {
            if *property == 0 {
                ProbeStep::Settled { secret: false }
            } else {
                ProbeStep::ReadValue
            }
        },
        ProbeEvent::Other => ProbeStep::Poll,
        ProbeEvent::Quiet { now } => {
            if *now >= deadline {
                ProbeStep::Settled { secret: false }
            } else {
                ProbeStep::Sleep
            }
        },
        ProbeEvent::Value(v) => {
            let secret = match v {
                Some(b) => hint_says_secret(b.as_slice()),
                None => false,
            };
            ProbeStep::Settled { secret }
        },
    }
}

/// Whether the clipboard holds a secret: what Wayland says, and what the probe of
/// the X server says where Wayland cannot be asked. Where neither can, it does
/// not.
pub fn clipboard_is_secret(wayland: Option<bool>, x11: Option<bool>) -> (r: bool)
    ensures
        r == match wayland {
            Some(s) => s,
            None => x11 == Some(true),
        },
{
    match wayland {
        Some(s) => s,
        None => match x11 {
            Some(s) => s,
            None => false,
        },
    }
}

/// A copy counts as secret only when its owner says so: whatever goes wrong with
/// the probe, it does not.
pub proof fn lemma_probe_fails_open(deadline: u64, ev: ProbeEvent<Seq<u8>>)
    requires
        probe_step(deadline, ev) == (ProbeStep::Settled { secret: true }),
    ensures
        ev is Value,
        ev->Value_0 is Some,
        value_is_secret(ev->Value_0->0),
{
}

// ---------------------------------------------------------------------------
// The list
// ---------------------------------------------------------------------------

/// The directory of the history below a home directory.
pub fn clip_dir(home: Option<String>) -> (r: Option<String>)
    ensures
        text::maybe(r) == match home {
            Some(h) => Some(paths::joined(h@, ".cache/vortex/clipboard"@)),
            None => None,
        },
{
    match home {
        Some(h) => Some(join(h.as_str(), ".cache/vortex/clipboard")),
        None => None,
    }
}

/// One line of the list.
#[derive(Debug, PartialEq, Eq)]
pub struct ClipRow<S = String> {
    pub id: S,
    pub kind: S,
    pub text: Option<S>,
    /// The picture's file.
    pub path: Option<S>,
    pub bytes: u64,
    pub ts_ms: u64,
    pub pinned: bool,
}

impl View for ClipRow {
    type V = ClipRow<Seq<char>>;

    open spec fn view(&self) -> ClipRow<Seq<char>> {
        ClipRow {
            id: self.id@,
            kind: self.kind@,
            text: text::maybe(self.text),
            path: text::maybe(self.path),
            bytes: self.bytes,
            ts_ms: self.ts_ms,
            pinned: self.pinned,
        }
    }
}

/// The path of an entry's file.
pub open spec fn path_of(e: SpecEntry, dir: Option<Seq<char>>) -> Option<Seq<char>> {
    match (dir, e.file) {
        (Some(d), Some(f)) => Some(paths::joined(d, f)),
        _ => None,
    }
}

/// The line of an entry with at most `limit` characters of its text.
pub open spec fn row_of(e: SpecEntry, dir: Option<Seq<char>>, limit: Option<int>) -> ClipRow<
    Seq<char>,
> {
    ClipRow {
        id: e.id,
        kind: e.kind,
        text: match (e.text, limit) {
            (Some(t), Some(n)) => Some(
                if t.len() > n {
                    t.take(n)
                } else {
                    t
                },
            ),
            (t, _) => t,
        },
        path: path_of(e, dir),
        bytes: e.bytes,
        ts_ms: e.ts_ms,
        pinned: e.pinned,
    }
}

/// The path of an entry's file.
fn entry_path(e: &ClipEntry, dir: &Option<String>) -> (r: Option<String>)
    ensures
        text::maybe(r) == path_of(e@, text::maybe(*dir)),
{
    match (dir, &e.file) {
        (Some(d), Some(f)) => Some(join(d.as_str(), f.as_str())),
        _ => None,
    }
}

/// The line of an entry; `short` cuts its text to what the list shows.
fn row(e: &ClipEntry, dir: &Option<String>, short: bool) -> (r: ClipRow)
    ensures
        r@ == row_of(
            e@,
            text::maybe(*dir),
            if short {
                Some(PREVIEW_CHARS as int)
            } else {
                None
            },
        ),
{
    let shown = match &e.text {
        Some(t) => {
            let chars = chars_of(t.as_str());
            if short && chars.len() > PREVIEW_CHARS {
                let s = text_between(&chars, 0, PREVIEW_CHARS);
                assert(s@ =~= t@.take(PREVIEW_CHARS as int));
                Some(s)
            } else {
                Some(t.as_str().to_string())
            }
        },
        None => None,
    };
    ClipRow {
        id: e.id.as_str().to_string(),
        kind: e.kind.as_str().to_string(),
        text: shown,
        path: entry_path(e, dir),
        bytes: e.bytes,
        ts_ms: e.ts_ms,
        pinned: e.pinned,
    }
}

/// The list, the newest first.
pub fn clipboard_history(entries: &Vec<ClipEntry>, dir: &Option<String>) -> (r: Vec<ClipRow>)
    ensures
        r@.len() == entries@.len(),
        forall|i: int|
            0 <= i < r@.len() ==> (#[trigger] r@[i])@ == row_of(
                entries@[i]@,
                text::maybe(*dir),
                Some(PREVIEW_CHARS as int),
            ),
{
    let mut r: Vec<ClipRow> = Vec::new();
    let mut i: usize = 0;
    while i < entries.len()
        invariant
            i <= entries@.len(),
            r@.len() == i,
            forall|j: int|
                0 <= j < i ==> (#[trigger] r@[j])@ == row_of(
                    entries@[j]@,
                    text::maybe(*dir),
                    Some(PREVIEW_CHARS as int),
                ),
        decreases entries.len() - i,
    {
        r.push(row(&entries[i], dir, true));
        i += 1;
    }
    r
}

/// One entry with all of its text.
pub fn clipboard_get(entries: &Vec<ClipEntry>, dir: &Option<String>, id: &str) -> (r: Option<
    ClipRow,
>)
    ensures
        ({
            let v = entry_views(entries@);
            let at = place_of(v, id@);
            if at < v.len() {
                r is Some && r->0@ == row_of(v[at], text::maybe(*dir), None)
            } else {
                r is None
            }
        }),
{
    match find_entry(entries, id) {
        Some(i) => Some(row(&entries[i], dir, false)),
        None => None,
    }
}

/// What goes back onto the clipboard.
#[derive(Debug, PartialEq, Eq)]
pub enum Payload<S = String> {
    Text(S),
    /// The picture in this file.
    Image(S),
}

impl View for Payload {
    type V = Payload<Seq<char>>;

    open spec fn view(&self) -> Payload<Seq<char>> {
        match self {
            Payload::Text(t) => Payload::Text(t@),
            Payload::Image(p) => Payload::Image(p@),
        }
    }
}

/// What the entry with this name puts back onto the clipboard.
pub open spec fn payload_of(v: Seq<SpecEntry>, id: Seq<char>, dir: Option<Seq<char>>) -> Option<
    Payload<Seq<char>>,
> {
    let at = place_of(v, id);
    if at < v.len() {
        match v[at].text {
            Some(t) => Some(Payload::Text(t)),
            None => match path_of(v[at], dir) {
                Some(p) => Some(Payload::Image(p)),
                None => None,
            },
        }
    } else {
        None
    }
}

/// What the entry with this name puts back onto the clipboard.
pub fn clipboard_select(entries: &Vec<ClipEntry>, dir: &Option<String>, id: &str) -> (r: Result<
    Payload,
    String,
>)
    ensures
        match payload_of(entry_views(entries@), id@, text::maybe(*dir)) {
            Some(p) => r is Ok && r->Ok_0@ == p,
            None => r is Err && r->Err_0@ == "entry not found"@,
        },
{
    match find_entry(entries, id) {
        Some(i) => {
            match &entries[i].text {
                Some(t) => Ok(Payload::Text(t.as_str().to_string())),
                None => match entry_path(&entries[i], dir) {
                    Some(p) => Ok(Payload::Image(p)),
                    None => Err("entry not found".to_string()),
                },
            }
        },
        None => Err("entry not found".to_string()),
    }
}

/// Brings an entry that was picked to the front.
pub fn surface(entries: &mut Vec<ClipEntry>, id: &str)
    ensures
        ({
            let v = entry_views(old(entries)@);
            let at = place_of(v, id@);
            entry_views(final(entries)@) == if at < v.len() {
                surfaced(v, at)
            } else {
                v
            }
        }),
{
    match find_entry(entries, id) {
        Some(i) => {
            if i != 0 {
                bring_forward(entries, i);
            } else {
                assert(surfaced(entry_views(entries@), 0) =~= entry_views(entries@));
            }
        },
        None => {},
    }
}

/// Pins an entry, or lets it go.
pub fn clipboard_pin(entries: &mut Vec<ClipEntry>, id: &str, pinned: bool)
    ensures
        ({
            let v = entry_views(old(entries)@);
            let at = place_of(v, id@);
            entry_views(final(entries)@) == if at < v.len() {
                v.update(at, ClipEntry { pinned, ..v[at] })
            } else {
                v
            }
        }),
{
    match find_entry(entries, id) {
        Some(i) => {
            let mut e = entries.remove(i);
            e.pinned = pinned;
            entries.insert(i, e);
            let ghost v = entry_views(old(entries)@);
            assert(entry_views(entries@) =~= v.update(i as int, ClipEntry { pinned, ..v[i as int] }));
        },
        None => {},
    }
}

/// Takes an entry out. Its file, if it has one, is to be deleted.
pub fn clipboard_delete(entries: &mut Vec<ClipEntry>, id: &str) -> (r: Option<String>)
    ensures
        ({
            let v = entry_views(old(entries)@);
            let at = place_of(v, id@);
            if at < v.len() {
                entry_views(final(entries)@) == v.remove(at) && text::maybe(r) == v[at].file
            } else {
                entry_views(final(entries)@) == v && r is None
            }
        }),
{
    match find_entry(entries, id) {
        Some(i) => {
            let e = entries.remove(i);
            assert(entry_views(entries@) =~= entry_views(old(entries)@).remove(i as int));
            e.file
        },
        None => None,
    }
}

// ---------------------------------------------------------------------------
// What holds of the history
// ---------------------------------------------------------------------------

/// An entry goes by its name: of several with one name it is the first that is meant, and
/// where there is none, no entry is.
pub proof fn lemma_name_means_the_first(v: Seq<SpecEntry>, id: Seq<char>, i: int)
    requires
        0 <= i <= v.len(),
        forall|j: int| 0 <= j < i ==> (#[trigger] v[j]).id != id,
        i < v.len() ==> v[i].id == id,
    ensures
        place_of(v, id) == i,
{
    lemma_place(v, id);
    if place_of(v, id) < i {
        assert(v[place_of(v, id)].id != id);
    }
}

/// Picking an entry gives back what was copied: the whole of its text, however long it is,
/// or the file of its picture in the directory of the history. What is not there cannot be
/// picked.
pub proof fn lemma_picked_entry_comes_back(
    v: Seq<SpecEntry>,
    id: Seq<char>,
    dir: Option<Seq<char>>,
    i: int,
)
    requires
        0 <= i <= v.len(),
        forall|j: int| 0 <= j < i ==> (#[trigger] v[j]).id != id,
        i < v.len() ==> v[i].id == id,
    ensures
        i == v.len() ==> payload_of(v, id, dir) is None,
        i < v.len() && v[i].text is Some ==> payload_of(v, id, dir) == Some(
            Payload::Text(v[i].text->0),
        ),
        i < v.len() && v[i].text is None && v[i].file is Some && dir is Some && dir->0.len() > 0
            && dir->0.last() != '/' ==> payload_of(v, id, dir) == Some(
            Payload::Image(dir->0 + seq!['/'] + v[i].file->0),
        ),
        i < v.len() && v[i].text is None && (v[i].file is None || dir is None) ==> payload_of(
            v,
            id,
            dir,
        ) is None,
{
    lemma_name_means_the_first(v, id, i);
    if dir is Some && i < v.len() && v[i].file is Some {
        assert(dir->0.push('/') + v[i].file->0 =~= dir->0 + seq!['/'] + v[i].file->0);
    }
}

/// The same of the call: what `clipboard_select` hands out for an entry with a text is that
/// text.
pub proof fn lemma_selected_text_is_whole(
    entries: &Vec<ClipEntry>,
    dir: &Option<String>,
    id: &str,
    r: Result<Payload, String>,
    i: int,
)
    requires
        call_ensures(clipboard_select, (entries, dir, id), r),
        0 <= i < entries@.len(),
        entries@[i].id@ == id@,
        forall|j: int| 0 <= j < i ==> (#[trigger] entries@[j]).id@ != id@,
        entries@[i].text is Some,
    ensures
        r is Ok,
        r->Ok_0@ is Text,
        r->Ok_0@->Text_0 == entries@[i].text->0@,
{
    let v = entry_views(entries@);
    assert(v[i] == entries@[i]@);
    assert forall|j: int| 0 <= j < i implies (#[trigger] v[j]).id != id@ by {
        assert(v[j] == entries@[j]@);
    }
    lemma_picked_entry_comes_back(v, id@, text::maybe(*dir), i);
}

/// Content that the history does not hold yet goes to the front as it was copied, stamped
/// with the time and not pinned. It is missing there only when there is no room for it
/// beside what is pinned, or when the clock stands at zero.
pub proof fn lemma_new_copy_goes_to_the_front(
    v: Seq<SpecEntry>,
    kind: Seq<char>,
    text: Option<Seq<char>>,
    png: Option<Seq<u8>>,
    now: u64,
)
    requires
        text is Some || png is Some,
        forall|j: int| 0 <= j < v.len() ==> (#[trigger] v[j]).id != capture_name(text, png)->0,
        now > 0,
        text is Some ==> utf8::encode_utf8(text->0).len() <= u64::MAX,
        png is Some ==> png->0.len() <= u64::MAX,
    ensures
        ({
            let (changed, w) = captured(v, kind, text, png, true, now);
            let e = w[0];
            let alone = seq![new_entry(kind, text, png, now)] + v;
            &&& changed
            &&& !is_over(spared(alone, now, 1)) ==> {
                &&& w.len() > 0
                &&& e.text == text && e.kind == kind && e.ts_ms == now && !e.pinned
                &&& text is Some ==> e.id == name_of(utf8::encode_utf8(text->0))
                &&& text is None ==> e.id == name_of(png->0)
                &&& png is Some ==> e.file == Some(e.id + ".png"@) && e.bytes == png->0.len()
                &&& png is None ==> e.file is None && e.bytes == utf8::encode_utf8(text->0).len()
            }
        }),
{
    let id = capture_name(text, png)->0;
    lemma_name_means_the_first(v, id, v.len() as int);
    let e = new_entry(kind, text, png, now);
    let grown = seq![e] + v;
    if !is_over(spared(grown, now, 1)) {
        lemma_oldest_goes_first(grown, now);
        let end = choose|end: int|
            {
                &&& 0 <= end <= grown.len()
                &&& kept(grown, now) == #[trigger] spared(grown, now, end)
                &&& end < grown.len() ==> is_full(grown, now, end)
            };
        assert(end > 0);
        lemma_spared_first(grown, now, end);
    }
}

proof fn lemma_spared_first(v: Seq<SpecEntry>, now: u64, end: int)
    requires
        v.len() > 0,
        end > 0,
        !is_expired(v[0], now),
    ensures
        spared(v, now, end).len() > 0,
        spared(v, now, end)[0] == v[0],
    decreases v.len(),
{
    if v.len() == 1 {
        assert(v.drop_last() =~= Seq::<SpecEntry>::empty());
        assert(spared(v.drop_last(), now, end) =~= Seq::<SpecEntry>::empty());
    } else {
        lemma_spared_first(v.drop_last(), now, end);
    }
}

/// A text that was copied and is picked under its name comes back as it was copied.
pub proof fn lemma_copied_text_can_be_pasted(
    v: Seq<SpecEntry>,
    t: Seq<char>,
    now: u64,
    dir: Option<Seq<char>>,
)
    requires
        forall|j: int| 0 <= j < v.len() ==> (#[trigger] v[j]).id != name_of(utf8::encode_utf8(t)),
        now > 0,
        utf8::encode_utf8(t).len() <= u64::MAX,
        !is_over(spared(seq![new_entry("text"@, Some(t), None, now)] + v, now, 1)),
    ensures
        payload_of(
            captured(v, "text"@, Some(t), None, false, now).1,
            name_of(utf8::encode_utf8(t)),
            dir,
        ) == Some(Payload::Text(t)),
{
    lemma_new_copy_goes_to_the_front(v, "text"@, Some(t), None, now);
    let w = captured(v, "text"@, Some(t), None, true, now).1;
    assert(captured(v, "text"@, Some(t), None, false, now) == captured(
        v,
        "text"@,
        Some(t),
        None,
        true,
        now,
    ));
    lemma_picked_entry_comes_back(w, name_of(utf8::encode_utf8(t)), dir, 0);
}

/// Content that the history holds already comes to the front, with its time and its pin, and
/// nothing else changes: the others keep their order, and none is lost. The list counts as
/// changed only when the entry was not in front.
pub proof fn lemma_known_copy_comes_forward(
    v: Seq<SpecEntry>,
    kind: Seq<char>,
    text: Option<Seq<char>>,
    png: Option<Seq<u8>>,
    written: bool,
    now: u64,
    i: int,
)
    requires
        text is Some || png is Some,
        0 <= i < v.len(),
        v[i].id == capture_name(text, png)->0,
        forall|j: int| 0 <= j < i ==> (#[trigger] v[j]).id != capture_name(text, png)->0,
    ensures
        ({
            let (changed, w) = captured(v, kind, text, png, written, now);
            &&& changed <==> i > 0
            &&& w.len() == v.len()
            &&& w[0] == v[i]
            &&& forall|j: int| 0 <= j < i ==> #[trigger] w[j + 1] == v[j]
            &&& forall|j: int| i < j < v.len() ==> #[trigger] w[j] == v[j]
        }),
{
    lemma_name_means_the_first(v, capture_name(text, png)->0, i);
}

/// What cannot be taken in changes nothing: a copy of nothing, and a picture whose file could
/// not be written.
pub proof fn lemma_refused_copy_changes_nothing(
    v: Seq<SpecEntry>,
    kind: Seq<char>,
    text: Option<Seq<char>>,
    png: Option<Seq<u8>>,
    now: u64,
)
    requires
        text is None && png is None || (png is Some && forall|j: int|
            0 <= j < v.len() ==> (#[trigger] v[j]).id != capture_name(text, png)->0),
    ensures
        captured(v, kind, text, png, false, now) == (false, v),
{
    if png is Some {
        lemma_name_means_the_first(v, capture_name(text, png)->0, v.len() as int);
    }
}

/// Two copies have the same name exactly when they have the same digest, as far as its first
/// 16 digits go; the text counts where there is one.
pub proof fn lemma_content_is_the_name(t: Seq<char>, p: Seq<u8>, q: Option<Seq<u8>>)
    ensures
        capture_name(Some(t), q) == Some(
            codec::hex_text(codec::sha256(utf8::encode_utf8(t))).take(16),
        ),
        capture_name(None, Some(p)) == Some(codec::hex_text(codec::sha256(p)).take(16)),
        capture_name(None, None) is None,
{
}

/// The limits: a week, a thousand entries, a hundred mebibytes. What is pinned has no age.
pub proof fn lemma_limits_of_the_history(v: Seq<SpecEntry>, e: SpecEntry, now: u64)
    ensures
        e.pinned ==> !is_expired(e, now),
        now >= 604_800_000 && !e.pinned ==> (is_expired(e, now) <==> now - e.ts_ms >= 604_800_000),
        0 < now < 604_800_000 && !e.pinned ==> (is_expired(e, now) <==> e.ts_ms == 0),
        !is_expired(e, 0),
        is_over(v) <==> v.len() > 1000 || total_bytes(v) > 104_857_600,
        total_bytes(Seq::<SpecEntry>::empty()) == 0,
        total_bytes(v.push(e)) == total_bytes(v) + e.bytes,
{
    assert(v.push(e).drop_last() =~= v);
}

proof fn lemma_expired_files_are_theirs(v: Seq<SpecEntry>, now: u64)
    ensures
        forall|f: Seq<char>| #[trigger]
            expired_files(v, now).contains(f) <==> exists|i: int|
                0 <= i < v.len() && is_expired(#[trigger] v[i], now) && v[i].file == Some(f),
    decreases v.len(),
{
    if v.len() > 0 {
        let tl = v.drop_first();
        lemma_expired_files_are_theirs(tl, now);
        let rest = expired_files(tl, now);
        let all = expired_files(v, now);
        assert forall|f: Seq<char>| #[trigger] all.contains(f) <==> exists|i: int|
            0 <= i < v.len() && is_expired(#[trigger] v[i], now) && v[i].file == Some(f) by {
            let head = files_of(v[0]);
            if all.contains(f) {
                let k = choose|k: int| 0 <= k < all.len() && all[k] == f;
                if is_expired(v[0], now) && k < head.len() {
                    assert(v[0].file == Some(f));
                } else {
                    if is_expired(v[0], now) {
                        assert(rest[k - head.len()] == f);
                    }
                    assert(rest.contains(f));
                    let i = choose|i: int|
                        0 <= i < tl.len() && is_expired(#[trigger] tl[i], now) && tl[i].file
                            == Some(f);
                    assert(v[i + 1] == tl[i]);
                }
            }
            if exists|i: int|
                0 <= i < v.len() && is_expired(#[trigger] v[i], now) && v[i].file == Some(f) {
                let i = choose|i: int|
                    0 <= i < v.len() && is_expired(#[trigger] v[i], now) && v[i].file == Some(f);
                if i == 0 {
                    assert(all[0] == f);
                } else {
                    assert(tl[i - 1] == v[i]);
                    assert(rest.contains(f));
                    let k = choose|k: int| 0 <= k < rest.len() && rest[k] == f;
                    if is_expired(v[0], now) {
                        assert(all[k + head.len()] == f);
                    }
                }
            }
        }
    }
}

/// Each entry of `v` is left by cutting, or its file is among those that are to be deleted,
/// as far as it has one; and no other file is.
proof fn lemma_cut_files_are_theirs(v: Seq<SpecEntry>)
    ensures
        forall|f: Seq<char>| #[trigger]
            cut_files(v).contains(f) ==> exists|i: int|
                0 <= i < v.len() && (#[trigger] v[i]).file == Some(f) && !v[i].pinned,
        forall|i: int|
            0 <= i < v.len() ==> cut(v).contains(#[trigger] v[i]) || v[i].file is None
                || cut_files(v).contains(v[i].file->0),
    decreases v.len(),
{
    let at = last_unpinned(v);
    lemma_last_unpinned(v);
    if is_over(v) && at >= 0 {
        let rest = v.remove(at);
        let head = files_of(v[at]);
        let more = cut_files(rest);
        let all = cut_files(v);
        lemma_cut_files_are_theirs(rest);
        assert(all == head + more);
        assert forall|f: Seq<char>| #[trigger] all.contains(f) implies exists|i: int|
            0 <= i < v.len() && (#[trigger] v[i]).file == Some(f) && !v[i].pinned by {
            let k = choose|k: int| 0 <= k < all.len() && all[k] == f;
            if k < head.len() {
                assert(v[at].file == Some(f));
            } else {
                assert(more[k - head.len()] == f);
                assert(more.contains(f));
                let i = choose|i: int|
                    0 <= i < rest.len() && (#[trigger] rest[i]).file == Some(f) && !rest[i].pinned;
                if i < at {
                    assert(v[i] == rest[i]);
                } else {
                    assert(v[i + 1] == rest[i]);
                }
            }
        }
        assert forall|i: int| 0 <= i < v.len() implies cut(v).contains(#[trigger] v[i])
            || v[i].file is None || all.contains(v[i].file->0) by {
            if i == at {
                if v[i].file is Some {
                    assert(all[0] == v[i].file->0);
                }
            } else {
                let j = if i < at {
                    i
                } else {
                    i - 1
                };
                assert(rest[j] == v[i]);
                if v[i].file is Some && more.contains(v[i].file->0) {
                    let k = choose|k: int| 0 <= k < more.len() && more[k] == v[i].file->0;
                    assert(all[k + head.len()] == v[i].file->0);
                }
            }
        }
    } else {
        assert(cut(v) == v);
    }
}

/// Forgetting takes the files along: the file of every entry that is forgotten is among those
/// to delete, and every file to delete belongs to an entry that is not pinned.
pub proof fn lemma_forgotten_files_are_deleted(v: Seq<SpecEntry>, now: u64, i: int)
    requires
        0 <= i < v.len(),
    ensures
        ({
            let files = expired_files(v, now) + cut_files(unexpired(v, now));
            &&& kept(v, now).contains(v[i]) || v[i].file is None || files.contains(v[i].file->0)
            &&& forall|f: Seq<char>| #[trigger]
                files.contains(f) ==> exists|j: int|
                    0 <= j < v.len() && (#[trigger] v[j]).file == Some(f) && !v[j].pinned
        }),
{
    let old = expired_files(v, now);
    let young = unexpired(v, now);
    let cutoff = cut_files(young);
    let files = old + cutoff;
    lemma_expired_files_are_theirs(v, now);
    lemma_cut_files_are_theirs(young);
    if v[i].file is Some {
        let f = v[i].file->0;
        if is_expired(v[i], now) {
            assert(old.contains(f));
            let k = choose|k: int| 0 <= k < old.len() && old[k] == f;
            assert(files[k] == f);
        } else {
            lemma_unexpired_keeps(v, now, v[i]);
            let k = choose|k: int| 0 <= k < young.len() && young[k] == v[i];
            if cutoff.contains(f) {
                let k = choose|k: int| 0 <= k < cutoff.len() && cutoff[k] == f;
                assert(files[k + old.len()] == f);
            }
        }
    }
    assert forall|f: Seq<char>| #[trigger] files.contains(f) implies exists|j: int|
        0 <= j < v.len() && (#[trigger] v[j]).file == Some(f) && !v[j].pinned by {
        let k = choose|k: int| 0 <= k < files.len() && files[k] == f;
        if k < old.len() {
            assert(old[k] == f);
            assert(old.contains(f));
        } else {
            assert(cutoff[k - old.len()] == f);
            assert(cutoff.contains(f));
            let j = choose|j: int|
                0 <= j < young.len() && (#[trigger] young[j]).file == Some(f) && !young[j].pinned;
            lemma_unexpired_part(v, now, j);
            let m = choose|m: int| 0 <= m < v.len() && v[m] == young[j];
            assert(v[m].file == Some(f));
        }
    }
}

proof fn lemma_unexpired_part(v: Seq<SpecEntry>, now: u64, j: int)
    requires
        0 <= j < unexpired(v, now).len(),
    ensures
        v.contains(unexpired(v, now)[j]),
    decreases v.len(),
{
    if v.len() > 0 {
        let tl = v.drop_first();
        let rest = unexpired(tl, now);
        if is_expired(v[0], now) {
            lemma_unexpired_part(tl, now, j);
            let k = choose|k: int| 0 <= k < tl.len() && tl[k] == rest[j];
            assert(v[k + 1] == rest[j]);
        } else if j > 0 {
            lemma_unexpired_part(tl, now, j - 1);
            let k = choose|k: int| 0 <= k < tl.len() && tl[k] == rest[j - 1];
            assert(v[k + 1] == rest[j - 1]);
        } else {
            assert(v[0] == unexpired(v, now)[0]);
        }
    }
}

/// The list shows every entry as it is, with the first 400 characters of its text at most; one
/// entry on its own comes with all of its text.
pub proof fn lemma_rows_show_the_entries(e: SpecEntry, dir: Option<Seq<char>>)
    ensures
        ({
            let short = row_of(e, dir, Some(PREVIEW_CHARS as int));
            let full = row_of(e, dir, None);
            &&& full.text == e.text
            &&& full.id == e.id && full.kind == e.kind && full.bytes == e.bytes && full.ts_ms
                == e.ts_ms && full.pinned == e.pinned
            &&& short == (ClipRow { text: short.text, ..full })
            &&& short.text is Some <==> e.text is Some
            &&& e.text is Some && e.text->0.len() <= 400 ==> short.text == e.text
            &&& e.text is Some && e.text->0.len() > 400 ==> short.text == Some(
                e.text->0.subrange(0, 400),
            )
            &&& dir is None || e.file is None ==> full.path is None
            &&& dir is Some && e.file is Some ==> full.path == Some(
                paths::joined(dir->0, e.file->0),
            )
        }),
{
}

/// Each row of the list is that of the entry in its place.
pub proof fn lemma_history_lists_everything(
    entries: &Vec<ClipEntry>,
    dir: &Option<String>,
    id: &str,
    one: Option<ClipRow>,
    i: int,
)
    requires
        call_ensures(clipboard_get, (entries, dir, id), one),
        0 <= i < entries@.len(),
        entries@[i].id@ == id@,
        forall|j: int| 0 <= j < i ==> (#[trigger] entries@[j]).id@ != id@,
    ensures
        one is Some,
        one->0@.text == text::maybe(entries@[i].text),
        one->0@.kind == entries@[i].kind@,
        one->0@.id == id@,
        one->0@.bytes == entries@[i].bytes && one->0@.ts_ms == entries@[i].ts_ms
            && one->0@.pinned == entries@[i].pinned,
{
    let v = entry_views(entries@);
    assert(v[i] == entries@[i]@);
    assert forall|j: int| 0 <= j < i implies (#[trigger] v[j]).id != id@ by {
        assert(v[j] == entries@[j]@);
    }
    lemma_name_means_the_first(v, id@, i);
}

/// Pinning, deleting and surfacing touch the entry that is named and no other: pinning changes
/// its pin alone, deleting takes it out and names its file, surfacing puts it in front.
pub proof fn lemma_one_entry_is_touched(
    pinned: &mut Vec<ClipEntry>,
    less: &mut Vec<ClipEntry>,
    moved: &mut Vec<ClipEntry>,
    id: &str,
    pin: bool,
    file: Option<String>,
    i: int,
)
    requires
        call_ensures(clipboard_pin, (pinned, id, pin), ()),
        call_ensures(clipboard_delete, (less, id), file),
        call_ensures(surface, (moved, id), ()),
        entry_views(old(less)@) == entry_views(old(pinned)@),
        entry_views(old(moved)@) == entry_views(old(pinned)@),
        0 <= i <= old(pinned)@.len(),
        forall|j: int| 0 <= j < i ==> entry_views(old(pinned)@)[j].id != id@,
        i < old(pinned)@.len() ==> entry_views(old(pinned)@)[i].id == id@,
    ensures
        ({
            let v = entry_views(old(pinned)@);
            let p = entry_views(final(pinned)@);
            let d = entry_views(final(less)@);
            let s = entry_views(final(moved)@);
            &&& i == v.len() ==> p == v && d == v && s == v && file is None
            &&& i < v.len() ==> {
                &&& p.len() == v.len()
                &&& p[i] == (ClipEntry { pinned: pin, ..v[i] })
                &&& forall|j: int| 0 <= j < v.len() && j != i ==> #[trigger] p[j] == v[j]
                &&& d.len() == v.len() - 1
                &&& forall|j: int| 0 <= j < i ==> #[trigger] d[j] == v[j]
                &&& forall|j: int| i < j < v.len() ==> #[trigger] v[j] == d[j - 1]
                &&& text::maybe(file) == v[i].file
                &&& s.len() == v.len()
                &&& s[0] == v[i]
                &&& forall|j: int| 0 <= j < i ==> #[trigger] v[j] == s[j + 1]
                &&& forall|j: int| i < j < v.len() ==> #[trigger] s[j] == v[j]
            }
        }),
{
    lemma_name_means_the_first(entry_views(old(pinned)@), id@, i);
}

/// A text that is on the clipboard is seen as new once: as long as it stays there it is the
/// same, and a text with another digest is new again.
pub proof fn lemma_text_is_new_once(w: ClipWatch<Seq<char>>, t: Seq<char>, u: Seq<char>)
    requires
        text::trimmed(t).len() > 0,
        text::trimmed(u).len() > 0,
        name_of(utf8::encode_utf8(t)) != name_of(utf8::encode_utf8(u)),
    ensures
        ({
            let seen = text_step(w, TextRead::Text(t)).0;
            &&& text_step(w, TextRead::Text(t)).1 is Fresh || text_step(
                w,
                TextRead::Text(u),
            ).1 is Fresh
            &&& !(text_step(w, TextRead::Text(t)).1 is TryImage)
            &&& text_step(seen, TextRead::Text(t)) == (seen, TextStep::Same)
            &&& text_step(seen, TextRead::Text(u)).1 is Fresh
            &&& text_step(ClipWatch { last_sig: ""@, ..w }, TextRead::Text(t)).1 is Fresh
        }),
{
    reveal_strlit("t:");
    reveal_strlit("");
    let a = name_of(utf8::encode_utf8(t));
    let b = name_of(utf8::encode_utf8(u));
    if text_mark(t) == text_mark(u) {
        assert(text_mark(t).skip(2) =~= a);
        assert(text_mark(u).skip(2) =~= b);
    }
    assert(text_mark(t) != text_mark(u));
    assert(text_mark(t).len() >= 2 && ""@.len() == 0);
    let seen = text_step(w, TextRead::Text(t)).0;
    assert(seen.last_sig == text_mark(t) && seen.state == 1);
    assert(text_step(seen, TextRead::Text(t)).0 == seen);
}

/// Where there is no text, or only white space, a picture is looked for, and what was seen last
/// is not forgotten over it.
pub proof fn lemma_blank_text_is_none(w: ClipWatch<Seq<char>>, t: Seq<char>, e: Seq<char>)
    requires
        text::trimmed(t).len() == 0,
    ensures
        text_step(w, TextRead::Text(t)) == (w, TextStep::TryImage),
        text_step(w, TextRead::NotText) == (w, TextStep::TryImage),
        text_step(w, TextRead::Error(e)).1 is TryImage,
        text_step(w, TextRead::Error(e)).0.last_sig == w.last_sig,
{
}

/// A picture is new once as well, and a text is never taken for a picture.
pub proof fn lemma_picture_is_new_once(
    w: ClipWatch<Seq<char>>,
    width: usize,
    height: usize,
    rgba: Seq<u8>,
    t: Seq<char>,
    e: Seq<char>,
)
    requires
        text::trimmed(t).len() > 0,
    ensures
        ({
            let read = ImageRead::Image { width, height, rgba };
            let (seen, sig) = image_step(w, read);
            &&& image_step(seen, read) == (seen, None::<Seq<char>>)
            &&& sig is Some ==> sig->0 == clipboard_sync::image_sig(width, height, rgba)
            &&& sig is None ==> seen.last_sig == w.last_sig
            &&& text_step(seen, TextRead::Text(t)).1 is Fresh
            &&& image_step(text_step(w, TextRead::Text(t)).0, read).1 is Some
        }),
        image_step(w, ImageRead::NotImage).1 is None,
        image_step(w, ImageRead::Error(e)).1 is None,
        image_step(w, ImageRead::NotImage).0.last_sig == w.last_sig,
        image_step(w, ImageRead::Error(e)).0.last_sig == w.last_sig,
{
    reveal_strlit("t:");
    reveal_strlit("i:");
    reveal_strlit("x");
    reveal_strlit(":");
    assert(text_mark(t)[0] == 't');
    assert(image_mark(width, height, rgba)[0] == 'i');
}

/// A secret leaves no trace, and of any other text the tidy form is kept, up to 65536
/// characters of it.
pub proof fn lemma_what_is_kept_of_a_text(t: &str, secret: bool, r: Option<String>)
    requires
        call_ensures(captured_text, (t, secret), r),
    ensures
        secret ==> r is None,
        !secret ==> r is Some,
        !secret && clipboard_sync::tidied(t@).len() <= 65_536 ==> r->0@ == clipboard_sync::tidied(
            t@,
        ),
        !secret && clipboard_sync::tidied(t@).len() > 65_536 ==> r->0@ == clipboard_sync::tidied(
            t@,
        ).subrange(0, 65_536),
{
}

/// A picture is kept as the file that it is, up to twenty mebibytes.
pub proof fn lemma_what_is_kept_of_a_picture(png: Option<Vec<u8>>, r: Option<Vec<u8>>)
    requires
        call_ensures(accept_png, (png,), r),
    ensures
        png is Some && png->0@.len() <= 20_971_520 ==> r == png,
        png is Some && png->0@.len() > 20_971_520 ==> r is None,
        png is None ==> r is None,
{
}

/// On Wayland the types that the owner offers decide: the mark of a password manager makes a
/// copy secret, and its absence makes it none. Where Wayland cannot be asked, the other
/// answer counts, and where nobody answers, a copy is no secret.
pub proof fn lemma_secret_has_a_mark(
    on_wayland: bool,
    offered: OfferedTypes,
    wayland: Option<bool>,
    x11: Option<bool>,
    r: bool,
)
    requires
        wayland == wayland_says(on_wayland, offered),
        call_ensures(clipboard_is_secret, (wayland, x11), r),
    ensures
        on_wayland ==> match offered {
            OfferedTypes::Types(t) => r <==> text::texts(t@).contains("x-kde-passwordManagerHint"@),
            OfferedTypes::Empty => !r,
            OfferedTypes::Unavailable => r <==> x11 == Some(true),
        },
        !on_wayland ==> (r <==> x11 == Some(true)),
{
}

/// On X the owner is asked for the mark and for its value. Only the word `secret`, in small
/// letters or capitals and with white space around it or none, makes a copy secret; an owner
/// without the mark, a failure, and silence up to the deadline settle that it is none.
pub proof fn lemma_probe_of_the_owner(
    deadline: u64,
    pre: Seq<char>,
    word: Seq<char>,
    post: Seq<char>,
    now: u64,
    property: u32,
)
    requires
        forall|i: int| 0 <= i < pre.len() ==> text::is_white(#[trigger] pre[i]),
        forall|i: int| 0 <= i < post.len() ==> text::is_white(#[trigger] post[i]),
        word.len() > 0,
        !text::is_white(word[0]) && !text::is_white(word.last()),
    ensures
        ({
            let value = utf8::encode_utf8(pre + word + post);
            probe_step(deadline, ProbeEvent::Value(Some(value))) == (ProbeStep::Settled {
                secret: text::ascii_lowered(word) == "secret"@,
            })
        }),
        probe_step(deadline, ProbeEvent::Value(None)) == (ProbeStep::Settled { secret: false }),
        probe_step(deadline, ProbeEvent::Error) == (ProbeStep::Settled { secret: false }),
        probe_step(deadline, ProbeEvent::Answered { property: 0 }) == (ProbeStep::Settled {
            secret: false,
        }),
        property != 0 ==> probe_step(deadline, ProbeEvent::Answered { property }) is ReadValue,
        probe_step(deadline, ProbeEvent::Other) is Poll,
        now < deadline ==> probe_step(deadline, ProbeEvent::Quiet { now }) is Sleep,
        now >= deadline ==> probe_step(deadline, ProbeEvent::Quiet { now }) == (
        ProbeStep::Settled { secret: false }),
{
    let s = pre + word + post;
    utf8::encode_utf8_valid_utf8(s);
    utf8::encode_utf8_decode_utf8(s);
    text::lemma_trimmed_core(pre, word, post);
}

/// Where the pictures of the history lie, and what is said of an entry that is not there.
pub proof fn lemma_place_of_the_pictures(
    home: Option<String>,
    r: Option<String>,
    entries: &Vec<ClipEntry>,
    dir: &Option<String>,
    id: &str,
    p: Result<Payload, String>,
)
    requires
        call_ensures(clip_dir, (home,), r),
        home is Some ==> home->0@.len() > 0 && home->0@.last() != '/',
        call_ensures(clipboard_select, (entries, dir, id), p),
    ensures
        r is Some <==> home is Some,
        r is Some ==> r->0@ == home->0@ + seq!['/'] + ".cache/vortex/clipboard"@,
        p is Err ==> p->Err_0@ == "entry not found"@,
        entries@.len() == 0 ==> p is Err,
{
    if home is Some {
        assert(home->0@.push('/') =~= home->0@ + seq!['/']);
    }
}

/// What a text and a picture are recognised by on the next look: what they are, how large a
/// picture is, and the first sixteen digits of the digest of their bytes.
pub proof fn lemma_marks_of_what_was_seen(t: Seq<char>, width: usize, height: usize, rgba: Seq<u8>)
    ensures
        text_mark(t) == "t:"@ + codec::hex_text(codec::sha256(utf8::encode_utf8(t))).take(16),
        image_mark(width, height, rgba) == "i:"@ + text::decimal(width as nat) + "x"@ + text::decimal(
            height as nat,
        ) + ":"@ + codec::hex_text(codec::sha256(rgba)).take(16),
{
}

/// A picture that was captured is kept as a file as long as it has no more than 20 mebibytes.
pub proof fn lemma_large_pictures_are_not_kept(
    width: usize,
    height: usize,
    rgba: Vec<u8>,
    r: Option<Vec<u8>>,
)
    requires
        call_ensures(captured_image, (width, height, rgba), r),
    ensures
        ({
            let file = codec::png_written(width as u32, height as u32, rgba@);
            &&& r is Some <==> file is Some && file->0.len() <= 20_971_520
            &&& r is Some ==> r->0@ == file->0
        }),
{
}

/// How often the clipboard is looked at, and how long its owner has to answer.
pub proof fn lemma_times_of_the_clipboard()
    ensures
        POLL_MS == 700,
        PROBE_MS == 60,
{
}

/// What the last look found, as a number: nothing is 0, text 1, a picture 2, and a failure 3.
pub proof fn lemma_kinds_of_looks(
    w: ClipWatch<Seq<char>>,
    t: Seq<char>,
    width: usize,
    height: usize,
    rgba: Seq<u8>,
    e: Seq<char>,
)
    ensures
        text::trimmed(t).len() > 0 ==> text_step(w, TextRead::Text(t)).0.state == 1,
        text_step(w, TextRead::Error(e)).0.state == 3,
        image_step(w, ImageRead::Image { width, height, rgba }).0.state == 2,
        image_step(w, ImageRead::NotImage).0.state == 0,
        image_step(w, ImageRead::Error(e)).0.state == 3,
{
}

} // verus!
