//! One clipboard on two devices, and files that the phone shares.
//!
//! A copy on either side appears on the other. What keeps it from going back and
//! forth for ever is a guard: the mark of the last content that crossed, in
//! either direction. Content with that mark is not sent. For the mark to be
//! recognised, text is tidied in the same way on both paths, and a picture is
//! known by its pixels and not by the file that they came in.

use vstd::prelude::*;
use vstd::utf8;

use crate::clipboard;
use crate::clipboard::hash_id;
use crate::codec;
use crate::codec::decode_png;
use crate::text;
use crate::text::{chars_of, decimal_text, same_text, text_between, text_of};

verus! {

// ---------------------------------------------------------------------------
// Text and pictures
// ---------------------------------------------------------------------------

/// A line feed or a carriage return.
pub open spec fn is_break(c: char) -> bool {
    c == '\n' || c == '\r'
}

/// `s` without the breaks that it begins with.
pub open spec fn skip_breaks(s: Seq<char>) -> Seq<char>
    decreases s.len(),
{
    if s.len() > 0 && is_break(s[0]) {
        skip_breaks(s.drop_first())
    } else {
        s
    }
}

/// `s` without the breaks that it ends with.
pub open spec fn drop_breaks(s: Seq<char>) -> Seq<char>
    decreases s.len(),
{
    if s.len() > 0 && is_break(s.last()) {
        drop_breaks(s.drop_last())
    } else {
        s
    }
}

/// `s` ends with an empty line.
pub open spec fn ends_blank(s: Seq<char>) -> bool {
    s.len() >= 2 && s[s.len() - 1] == '\n' && s[s.len() - 2] == '\n'
}

/// `s` with at most one empty line in a row.
pub open spec fn squeezed(s: Seq<char>) -> Seq<char>
    decreases s.len(),
{
    if s.len() == 0 {
        s
    } else {
        let before = squeezed(s.drop_last());
        if s.last() == '\n' && ends_blank(before) {
            before
        } else {
            before.push(s.last())
        }
    }
}

/// A text as it is kept and sent: no empty lines around it, and no more than one
/// in a row within.
pub open spec fn tidied(s: Seq<char>) -> Seq<char> {
    squeezed(drop_breaks(skip_breaks(s)))
}

/// Tidies a text.
pub fn tidy_text(s: &str) -> (r: String)
    ensures
        r@ == tidied(s@),
{
    let chars = chars_of(s);
    let mut from: usize = 0;
    assert(s@.skip(0) =~= s@);
    while from < chars.len() && (chars[from] == '\n' || chars[from] == '\r')
        invariant
            from <= chars@.len(),
            chars@ == s@,
            skip_breaks(s@) == skip_breaks(s@.skip(from as int)),
        decreases chars.len() - from,
    {
        assert(s@.skip(from as int).drop_first() =~= s@.skip(from + 1));
        from += 1;
    }
    let ghost body = s@.skip(from as int);
    assert(skip_breaks(s@) == body);
    let mut to: usize = chars.len();
    assert(body.take(to - from) =~= body);
    while to > from && (chars[to - 1] == '\n' || chars[to - 1] == '\r')
        invariant
            from <= to <= chars@.len(),
            chars@ == s@,
            body == s@.skip(from as int),
            drop_breaks(body) == drop_breaks(body.take(to - from)),
        decreases to - from,
    {
        assert(body.take(to - from).last() == chars@[to - 1]);
        assert(body.take(to - from).drop_last() =~= body.take(to - from - 1));
        to -= 1;
    }
    let ghost core = body.take(to - from);
    assert(drop_breaks(body) == core) by {
        if to > from {
            assert(core.last() == chars@[to - 1]);
        }
    }
    let mut out: Vec<char> = Vec::new();
    let mut i: usize = from;
    assert(core.take(0) =~= Seq::<char>::empty());
    while i < to
        invariant
            from <= i <= to <= chars@.len(),
            chars@ == s@,
            core == s@.skip(from as int).take(to - from),
            out@ == squeezed(core.take(i - from)),
        decreases to - i,
    {
        assert(core.take(i + 1 - from).last() == chars@[i as int]);
        assert(core.take(i + 1 - from).drop_last() =~= core.take(i - from));
        let c = chars[i];
        let n: usize = out.len();
        let blank = n >= 2 && out[n - 1] == '\n' && out[n - 2] == '\n';
        if !(c == '\n' && blank) {
            out.push(c);
        }
        i += 1;
    }
    assert(core.take(to - from) =~= core);
    text_of(&out)
}

/// No three line feeds stand in a row.
pub open spec fn no_gap(s: Seq<char>) -> bool {
    forall|i: int|
        0 <= i < s.len() - 2 ==> !(#[trigger] s[i] == '\n' && s[i + 1] == '\n' && s[i + 2] == '\n')
}

proof fn lemma_squeezed(s: Seq<char>)
    ensures
        no_gap(squeezed(s)),
        s.len() > 0 ==> squeezed(s).len() > 0 && squeezed(s)[0] == s[0],
        s.len() > 0 && s.last() != '\n' ==> squeezed(s).last() == s.last(),
    decreases s.len(),
{
    if s.len() > 0 {
        let before = squeezed(s.drop_last());
        lemma_squeezed(s.drop_last());
        let q = squeezed(s);
        assert forall|i: int| 0 <= i < q.len() - 2 implies !(#[trigger] q[i] == '\n' && q[i + 1]
            == '\n' && q[i + 2] == '\n') by {
            if i < before.len() - 2 {
                assert(q[i] == before[i] && q[i + 1] == before[i + 1] && q[i + 2] == before[i + 2]);
            }
        }
        if s.len() > 1 {
            assert(s.drop_last()[0] == s[0]);
        }
    }
}

proof fn lemma_squeezing_done(s: Seq<char>)
    requires
        no_gap(s),
    ensures
        squeezed(s) == s,
    decreases s.len(),
{
    if s.len() > 0 {
        let d = s.drop_last();
        assert forall|i: int| 0 <= i < d.len() - 2 implies !(#[trigger] d[i] == '\n' && d[i + 1]
            == '\n' && d[i + 2] == '\n') by {
            assert(s[i] == d[i]);
        }
        lemma_squeezing_done(d);
        if s.len() >= 3 {
            let k = s.len() - 3;
            assert(!(s[k] == '\n' && s[k + 1] == '\n' && s[k + 2] == '\n'));
        }
        assert(d.push(s.last()) =~= s);
    }
}

proof fn lemma_skip_breaks(s: Seq<char>)
    ensures
        skip_breaks(s).len() > 0 ==> !is_break(skip_breaks(s)[0]),
    decreases s.len(),
{
    if s.len() > 0 && is_break(s[0]) {
        lemma_skip_breaks(s.drop_first());
    }
}

proof fn lemma_drop_breaks(s: Seq<char>)
    requires
        s.len() > 0,
        !is_break(s[0]),
    ensures
        drop_breaks(s).len() > 0,
        drop_breaks(s)[0] == s[0],
        !is_break(drop_breaks(s).last()),
    decreases s.len(),
{
    if is_break(s.last()) {
        assert(s.len() > 1);
        lemma_drop_breaks(s.drop_last());
    }
}

/// Tidying a tidy text changes nothing.
pub proof fn lemma_tidying_is_idempotent(s: Seq<char>)
    ensures
        tidied(tidied(s)) == tidied(s),
{
    let t = drop_breaks(skip_breaks(s));
    let q = squeezed(t);
    lemma_skip_breaks(s);
    lemma_squeezed(t);
    if skip_breaks(s).len() > 0 {
        lemma_drop_breaks(skip_breaks(s));
        assert(skip_breaks(q) == q);
        assert(drop_breaks(q) == q);
    }
    lemma_squeezing_done(q);
}

/// A tidy text neither begins nor ends with a break, and has no two empty lines in
/// a row.
pub proof fn lemma_tidy_text_is_tight(s: Seq<char>)
    ensures
        no_gap(tidied(s)),
        tidied(s).len() > 0 ==> !is_break(tidied(s)[0]) && !is_break(tidied(s).last()),
{
    let t = drop_breaks(skip_breaks(s));
    lemma_skip_breaks(s);
    lemma_squeezed(t);
    if skip_breaks(s).len() > 0 {
        lemma_drop_breaks(skip_breaks(s));
    }
}

/// A text that is tight already stays as it is.
pub proof fn lemma_tight_text_is_kept(s: Seq<char>)
    requires
        no_gap(s),
        s.len() > 0 ==> !is_break(s[0]) && !is_break(s.last()),
    ensures
        tidied(s) == s,
{
    lemma_squeezing_done(s);
}

/// The characters of `s` that are no breaks.
pub open spec fn unbroken(s: Seq<char>) -> Seq<char>
    decreases s.len(),
{
    if s.len() == 0 {
        s
    } else if is_break(s.last()) {
        unbroken(s.drop_last())
    } else {
        unbroken(s.drop_last()).push(s.last())
    }
}

proof fn lemma_unbroken_sum(a: Seq<char>, b: Seq<char>)
    ensures
        unbroken(a + b) == unbroken(a) + unbroken(b),
    decreases b.len(),
{
    if b.len() == 0 {
        assert(a + b =~= a);
        assert(unbroken(a) + unbroken(b) =~= unbroken(a));
    } else {
        lemma_unbroken_sum(a, b.drop_last());
        assert((a + b).drop_last() =~= a + b.drop_last());
        assert((a + b).last() == b.last());
        assert(unbroken(a + b) =~= unbroken(a) + unbroken(b));
    }
}

proof fn lemma_skipping_keeps(s: Seq<char>)
    ensures
        unbroken(skip_breaks(s)) == unbroken(s),
    decreases s.len(),
{
    if s.len() > 0 && is_break(s[0]) {
        lemma_skipping_keeps(s.drop_first());
        let one = seq![s[0]];
        assert(s =~= one + s.drop_first());
        lemma_unbroken_sum(one, s.drop_first());
        assert(one.drop_last() =~= Seq::<char>::empty());
        assert(unbroken(Seq::<char>::empty()) =~= Seq::<char>::empty());
        assert(unbroken(one) =~= Seq::<char>::empty());
        assert(unbroken(one) + unbroken(s.drop_first()) =~= unbroken(s.drop_first()));
    }
}

proof fn lemma_dropping_keeps(s: Seq<char>)
    ensures
        unbroken(drop_breaks(s)) == unbroken(s),
    decreases s.len(),
{
    if s.len() > 0 && is_break(s.last()) {
        lemma_dropping_keeps(s.drop_last());
    }
}

proof fn lemma_squeezing_keeps(s: Seq<char>)
    ensures
        unbroken(squeezed(s)) == unbroken(s),
    decreases s.len(),
{
    if s.len() > 0 {
        let before = squeezed(s.drop_last());
        lemma_squeezing_keeps(s.drop_last());
        if !(s.last() == '\n' && ends_blank(before)) {
            assert(before.push(s.last()).drop_last() =~= before);
        }
    }
}

/// Tidying takes away nothing but breaks: all other characters stay, in their
/// order.
pub proof fn lemma_tidying_keeps_content(s: Seq<char>)
    ensures
        unbroken(tidied(s)) == unbroken(s),
{
    lemma_skipping_keeps(s);
    lemma_dropping_keeps(skip_breaks(s));
    lemma_squeezing_keeps(drop_breaks(skip_breaks(s)));
}

/// `n` line feeds.
pub open spec fn feeds(n: nat) -> Seq<char> {
    Seq::new(n, |i: int| '\n')
}

proof fn lemma_squeezing_feeds(a: Seq<char>, n: nat)
    requires
        a.len() > 0,
        a.last() != '\n',
    ensures
        squeezed(a + feeds(n)) == squeezed(a) + feeds(
            if n < 2 {
                n
            } else {
                2
            },
        ),
    decreases n,
{
    lemma_squeezed(a);
    let q = squeezed(a);
    if n == 0 {
        assert(a + feeds(0) =~= a);
        assert(q + feeds(0) =~= q);
    } else {
        let m = (n - 1) as nat;
        lemma_squeezing_feeds(a, m);
        assert((a + feeds(n)).drop_last() =~= a + feeds(m));
        assert((a + feeds(n)).last() == '\n');
        let before = squeezed(a + feeds(m));
        if m == 0 {
            assert(before =~= q);
            assert(before.push('\n') =~= q + feeds(1));
        } else if m == 1 {
            assert(before =~= q + feeds(1));
            assert(before[before.len() - 2] == q.last());
            assert(before.push('\n') =~= q + feeds(2));
        } else {
            assert(before =~= q + feeds(2));
            assert(ends_blank(before));
        }
    }
}

proof fn lemma_squeezing_parts(a: Seq<char>, b: Seq<char>)
    requires
        b.len() > 0,
        b[0] != '\n',
    ensures
        squeezed(a + b) == squeezed(a) + squeezed(b),
    decreases b.len(),
{
    let d = b.drop_last();
    assert((a + b).drop_last() =~= a + d);
    assert((a + b).last() == b.last());
    if d.len() == 0 {
        assert(a + d =~= a);
        assert(squeezed(d) =~= Seq::<char>::empty());
        assert(squeezed(b) =~= seq![b[0]]);
        assert(squeezed(a + b) =~= squeezed(a) + squeezed(b));
    } else {
        lemma_squeezing_parts(a, d);
        lemma_squeezed(d);
        let qa = squeezed(a);
        let qd = squeezed(d);
        assert(ends_blank(qa + qd) == ends_blank(qd)) by {
            if qd.len() == 1 {
                assert((qa + qd).last() == qd[0]);
            } else {
                assert((qa + qd)[(qa + qd).len() - 2] == qd[qd.len() - 2]);
            }
        }
        assert(squeezed(a + b) =~= qa + squeezed(b));
    }
}

/// What tidying does to the empty lines within a text: a run of line feeds between
/// two pieces of it is cut down to two, which is one empty line, and a shorter one
/// stays. The pieces are tidied on their own.
pub proof fn lemma_gaps_become_one_empty_line(a: Seq<char>, n: nat, b: Seq<char>)
    requires
        a.len() > 0 && !is_break(a[0]) && !is_break(a.last()),
        b.len() > 0 && !is_break(b[0]) && !is_break(b.last()),
    ensures
        tidied(a + feeds(n) + b) == tidied(a) + feeds(
            if n < 2 {
                n
            } else {
                2
            },
        ) + tidied(b),
{
    let s = a + feeds(n) + b;
    assert(s[0] == a[0] && s.last() == b.last());
    lemma_squeezing_feeds(a, n);
    lemma_squeezing_parts(a + feeds(n), b);
}

/// The mark of a text.
pub open spec fn text_sig(t: Seq<char>) -> Seq<char> {
    clipboard::name_of(utf8::encode_utf8(t))
}

/// The mark of a text.
pub fn sync_sig(text: &str) -> (r: String)
    ensures
        r@ == text_sig(text@),
{
    hash_id(text.as_bytes())
}

/// A text that came from the phone, put onto the clipboard and read back by the
/// watcher, has the mark that the guard holds, as long as it is not so long that
/// the watcher cuts it.
pub proof fn lemma_received_text_is_recognised(t: Seq<char>)
    requires
        tidied(t).len() <= clipboard::MAX_TEXT_CHARS,
    ensures
        clipboard::clean_text(tidied(t), false) == Some(tidied(t)),
        text_sig(clipboard::clean_text(tidied(t), false)->0) == text_sig(tidied(t)),
{
    lemma_tidying_is_idempotent(t);
}

/// The four bytes of `n`, the lowest first.
pub open spec fn le_bytes(n: u32) -> Seq<u8> {
    seq![
        (n as int % 256) as u8,
        (n as int / 0x100 % 256) as u8,
        (n as int / 0x1_0000 % 256) as u8,
        (n as int / 0x100_0000) as u8,
    ]
}

/// The mark of a picture: from its size and its pixels.
pub open spec fn image_sig(width: usize, height: usize, rgba: Seq<u8>) -> Seq<char> {
    clipboard::name_of(le_bytes(width as u32) + le_bytes(height as u32) + rgba)
}

/// Appends the four bytes of `n`, the lowest first.
fn push_le(v: &mut Vec<u8>, n: u32)
    ensures
        final(v)@ == old(v)@ + le_bytes(n),
{
    v.push((n % 256) as u8);
    v.push((n / 0x100 % 256) as u8);
    v.push((n / 0x1_0000 % 256) as u8);
    v.push((n / 0x100_0000) as u8);
    assert(v@ =~= old(v)@ + le_bytes(n));
}

/// The mark of a picture.
pub fn img_sig(w: usize, h: usize, rgba: &[u8]) -> (r: String)
    ensures
        r@ == image_sig(w, h, rgba@),
{
    let mut v: Vec<u8> = Vec::new();
    push_le(&mut v, w as u32);
    push_le(&mut v, h as u32);
    v.extend_from_slice(rgba);
    assert(v@ =~= le_bytes(w as u32) + le_bytes(h as u32) + rgba@);
    hash_id(v.as_slice())
}

/// The width, height and pixels in a PNG file, where it can be read.
pub fn decode_png_rgba(png: &[u8]) -> (r: Option<(usize, usize, Vec<u8>)>)
    ensures
        match codec::png_read(png@) {
            Ok(p) => r is Some && (r->0).0 == p.0 && (r->0).1 == p.1 && (r->0).2@ == p.2,
            Err(_) => r is None,
        },
        r is Some ==> (r->0).2@.len() == 4 * (r->0).0 * (r->0).1,
{
    match decode_png(png) {
        Ok((w, h, rgba)) => Some((w as usize, h as usize, rgba)),
        Err(_) => None,
    }
}

/// The width, height and pixels in a PNG file that goes onto the clipboard, or
/// the complaint about one that cannot be read.
pub fn clipboard_picture(png: &[u8]) -> (r: Result<(usize, usize, Vec<u8>), String>)
    ensures
        match codec::png_read(png@) {
            Ok(p) => r is Ok && (r->Ok_0).0 == p.0 && (r->Ok_0).1 == p.1 && (r->Ok_0).2@ == p.2,
            Err(e) => r is Err && r->Err_0@ == "decode png: "@ + e,
        },
        r is Ok ==> (r->Ok_0).2@.len() == 4 * (r->Ok_0).0 * (r->Ok_0).1,
{
    match decode_png(png) {
        Ok((w, h, rgba)) => Ok((w as usize, h as usize, rgba)),
        Err(e) => {
            let mut m = "decode png: ".to_string();
            m.append(e.as_str());
            Err(m)
        },
    }
}

// ---------------------------------------------------------------------------
// The guard
// ---------------------------------------------------------------------------

/// Whether copies are shared, and the marks of what crossed last.
pub struct ClipSync<S = String> {
    pub on: bool,
    pub last_text: S,
    pub last_image: S,
}

impl View for ClipSync {
    type V = ClipSync<Seq<char>>;

    open spec fn view(&self) -> ClipSync<Seq<char>> {
        ClipSync { on: self.on, last_text: self.last_text@, last_image: self.last_image@ }
    }
}

/// The mark under which a text goes to the phone; `None` where it stays, because
/// sharing is off or because it crossed last.
pub open spec fn text_offered(st: ClipSync<Seq<char>>, text: Seq<char>) -> Option<Seq<char>> {
    if st.on && text_sig(text) != st.last_text {
        Some(text_sig(text))
    } else {
        None
    }
}

/// What putting a text onto the clipboard does, and the text that is put there.
pub open spec fn text_put(st: ClipSync<Seq<char>>, raw: Seq<char>) -> (
    ClipSync<Seq<char>>,
    Option<Seq<char>>,
) {
    if tidied(raw).len() > 0 {
        (ClipSync { last_text: text_sig(tidied(raw)), ..st }, Some(tidied(raw)))
    } else {
        (st, None)
    }
}

/// What a text from the phone does, and what of it is put onto the clipboard.
pub open spec fn text_received(st: ClipSync<Seq<char>>, raw: Seq<char>) -> (
    ClipSync<Seq<char>>,
    Option<Seq<char>>,
) {
    if st.on {
        text_put(st, raw)
    } else {
        (st, None)
    }
}

/// Whether a picture with this mark goes to the phone.
pub open spec fn image_offered(st: ClipSync<Seq<char>>, sig: Seq<char>) -> bool {
    st.on && sig != st.last_image
}

/// What a picture from the phone does, given its size and pixels where they could
/// be read.
pub open spec fn image_received(
    st: ClipSync<Seq<char>>,
    pixels: Option<(usize, usize, Seq<u8>)>,
) -> ClipSync<Seq<char>> {
    match pixels {
        Some(p) => if st.on {
            ClipSync { last_image: image_sig(p.0, p.1, p.2), ..st }
        } else {
            st
        },
        None => st,
    }
}

impl ClipSync {
    /// Copies are shared, and none has crossed yet.
    pub fn new() -> (r: Self)
        ensures
            r@ == (ClipSync::<Seq<char>> { on: true, last_text: ""@, last_image: ""@ }),
    {
        ClipSync { on: true, last_text: "".to_string(), last_image: "".to_string() }
    }

    /// Turns sharing on or off.
    pub fn set_clipboard_sync(&mut self, enabled: bool)
        ensures
            final(self)@ == (ClipSync { on: enabled, ..old(self)@ }),
    {
        self.on = enabled;
    }

    /// Whether copies are shared.
    pub fn get_clipboard_sync(&self) -> (r: bool)
        ensures
            r == self@.on,
    {
        self.on
    }

    /// Whether a picture of `len` bytes is queued for the phone: one that fits
    /// through the link, whose limit is `cap`.
    pub fn queues_image(&self, len: usize, cap: usize) -> (r: bool)
        ensures
            r == (self@.on && len <= cap),
    {
        self.on && len <= cap
    }

    /// The mark under which a text goes to the phone; `None` where it stays,
    /// because sharing is off or because it crossed last.
    pub fn offer_text(&self, text: &str) -> (r: Option<String>)
        ensures
            text::maybe(r) == text_offered(self@, text@),
    {
        if !self.on {
            return None;
        }
        let sig = sync_sig(text);
        if same_text(sig.as_str(), self.last_text.as_str()) {
            None
        } else {
            Some(sig)
        }
    }

    /// A text reached the phone.
    pub fn text_sent(&mut self, sig: String)
        ensures
            final(self)@ == (ClipSync { last_text: sig@, ..old(self)@ }),
    {
        self.last_text = sig;
    }

    /// A text came from the phone: what goes onto the clipboard. The guard is set
    /// before that, so that the watcher recognises it.
    pub fn receive_text(&mut self, raw: &str) -> (r: Option<String>)
        ensures
            (final(self)@, text::maybe(r)) == text_received(old(self)@, raw@),
    {
        if !self.on {
            return None;
        }
        self.set_local_text(raw)
    }

    /// A text that the laptop itself puts onto the clipboard, and that must not go
    /// to the phone.
    pub fn set_local_text(&mut self, raw: &str) -> (r: Option<String>)
        ensures
            (final(self)@, text::maybe(r)) == text_put(old(self)@, raw@),
    {
        let text = tidy_text(raw);
        if chars_of(text.as_str()).len() == 0 {
            return None;
        }
        self.last_text = sync_sig(text.as_str());
        Some(text)
    }

    /// Whether a picture with this mark goes to the phone.
    pub fn offer_image(&self, sig: &str) -> (r: bool)
        ensures
            r == image_offered(self@, sig@),
    {
        self.on && !same_text(sig, self.last_image.as_str())
    }

    /// A picture reached the phone.
    pub fn image_sent(&mut self, sig: String)
        ensures
            final(self)@ == (ClipSync { last_image: sig@, ..old(self)@ }),
    {
        self.last_image = sig;
    }

    /// Sets the guard to a picture, where its pixels could be read.
    pub fn guard_image(&mut self, pixels: Option<(usize, usize, Vec<u8>)>) -> (r: bool)
        ensures
            r == old(self)@.on,
            final(self)@ == image_received(
                old(self)@,
                match pixels {
                    Some(p) => Some((p.0, p.1, p.2@)),
                    None => None,
                },
            ),
    {
        if !self.on {
            return false;
        }
        match pixels {
            Some((w, h, rgba)) => {
                self.last_image = img_sig(w, h, rgba.as_slice());
            },
            None => {},
        }
        true
    }

    /// A picture came from the phone: whether it goes onto the clipboard. The
    /// guard is set before that.
    pub fn receive_image(&mut self, png: &[u8]) -> (r: bool)
        ensures
            r == old(self)@.on,
            final(self)@ == image_received(
                old(self)@,
                match codec::png_read(png@) {
                    Ok(p) => Some((p.0 as usize, p.1 as usize, p.2)),
                    Err(_) => None,
                },
            ),
    {
        let pixels = decode_png_rgba(png);
        self.guard_image(pixels)
    }
}

/// A text that came from the phone does not go back: what the watcher makes of
/// the text that was put onto the clipboard stays here, as long as it is not so
/// long that the watcher cuts it.
pub proof fn lemma_no_echo(st: ClipSync<Seq<char>>, raw: Seq<char>)
    requires
        tidied(raw).len() <= clipboard::MAX_TEXT_CHARS,
    ensures
        ({
            let (after, put) = text_received(st, raw);
            put matches Some(t) ==> text_offered(after, clipboard::clean_text(t, false)->0) is None
        }),
        ({
            let (after, put) = text_put(st, raw);
            put matches Some(t) ==> text_offered(after, clipboard::clean_text(t, false)->0) is None
        }),
{
    lemma_received_text_is_recognised(raw);
}

/// A text that reached the phone is not sent again before another one was.
pub proof fn lemma_sent_once(st: ClipSync<Seq<char>>, text: Seq<char>)
    ensures
        text_offered(ClipSync { last_text: text_sig(text), ..st }, text) is None,
{
}

/// A picture that came from the phone does not go back: when the watcher finds
/// its pixels on the clipboard, their mark is the one that the guard holds.
pub proof fn lemma_no_image_echo(
    st: ClipSync<Seq<char>>,
    w: clipboard::ClipWatch<Seq<char>>,
    width: usize,
    height: usize,
    rgba: Seq<u8>,
)
    requires
        st.on,
    ensures
        ({
            let after = image_received(st, Some((width, height, rgba)));
            let read = clipboard::ImageRead::Image { width, height, rgba };
            clipboard::image_step(w, read).1 matches Some(sig) ==> !image_offered(after, sig)
        }),
{
}

// ---------------------------------------------------------------------------
// Shared files
// ---------------------------------------------------------------------------

/// `s` up to its last component: without slashes at the end, and without the
/// components that mean the directory itself.
pub open spec fn without_tail(s: Seq<char>) -> Seq<char>
    decreases s.len(),
{
    if s.len() > 0 && s.last() == '/' {
        without_tail(s.drop_last())
    } else if s.len() > 0 && s.last() == '.' && (s.len() == 1 || s[s.len() - 2] == '/') {
        without_tail(s.drop_last())
    } else {
        s
    }
}

/// The position behind the last slash.
pub open spec fn behind_slash(s: Seq<char>) -> int
    decreases s.len(),
{
    if s.len() == 0 || s.last() == '/' {
        s.len() as int
    } else {
        behind_slash(s.drop_last())
    }
}

/// The name at the end of a path, when it has one.
pub open spec fn final_name(path: Seq<char>) -> Option<Seq<char>> {
    let s = without_tail(path);
    let name = s.skip(behind_slash(s));
    if name.len() == 0 || name == ".."@ {
        None
    } else {
        Some(name)
    }
}

proof fn lemma_behind_slash(s: Seq<char>)
    ensures
        0 <= behind_slash(s) <= s.len(),
        !s.skip(behind_slash(s)).contains('/'),
    decreases s.len(),
{
    if s.len() == 0 || s.last() == '/' {
        assert(s.skip(s.len() as int) =~= Seq::<char>::empty());
    } else {
        lemma_behind_slash(s.drop_last());
        let n = behind_slash(s);
        let before = s.drop_last().skip(n);
        assert(s.skip(n) =~= before.push(s.last()));
        assert forall|i: int| 0 <= i < s.skip(n).len() implies #[trigger] s.skip(n)[i] != '/' by {
            if i < before.len() {
                assert(before[i] != '/');
            }
        }
    }
}

/// The name at the end of a path.
pub fn file_name(path: &str) -> (r: Option<String>)
    ensures
        text::maybe(r) == final_name(path@),
{
    let chars = chars_of(path);
    let mut to: usize = chars.len();
    assert(path@.take(to as int) =~= path@);
    while to > 0 && (chars[to - 1] == '/' || (chars[to - 1] == '.' && (to == 1 || chars[to - 2]
        == '/')))
        invariant
            to <= chars@.len(),
            chars@ == path@,
            without_tail(path@) == without_tail(path@.take(to as int)),
        decreases to,
    {
        assert(path@.take(to as int).last() == chars@[to - 1]);
        assert(path@.take(to as int).drop_last() =~= path@.take(to - 1));
        to -= 1;
    }
    let ghost s = path@.take(to as int);
    assert(without_tail(path@) == s) by {
        if to > 0 {
            assert(s.last() == chars@[to - 1]);
            if to > 1 {
                assert(s[s.len() - 2] == chars@[to - 2]);
            }
        }
    }
    let mut from: usize = to;
    assert(s.take(from as int) =~= s);
    while from > 0 && chars[from - 1] != '/'
        invariant
            from <= to <= chars@.len(),
            chars@ == path@,
            s == path@.take(to as int),
            behind_slash(s) == behind_slash(s.take(from as int)),
        decreases from,
    {
        assert(s.take(from as int).last() == chars@[from - 1]);
        assert(s.take(from as int).drop_last() =~= s.take(from - 1));
        from -= 1;
    }
    assert(behind_slash(s) == from) by {
        if from > 0 {
            assert(s.take(from as int).last() == chars@[from - 1]);
        }
    }
    let name = text_between(&chars, from, to);
    assert(name@ =~= s.skip(from as int));
    if from == to || same_text(name.as_str(), "..") {
        None
    } else {
        Some(name)
    }
}

/// The name under which a shared file is kept: the name at the end of what the
/// phone calls it, whatever that is.
pub open spec fn safe_name(name: Seq<char>) -> Seq<char> {
    match final_name(name) {
        Some(n) => n,
        None => "vortex-file"@,
    }
}

/// The name under which a shared file is kept.
pub fn safe_file_name(name: &str) -> (r: String)
    ensures
        r@ == safe_name(name@),
{
    match file_name(name) {
        Some(n) => n,
        None => "vortex-file".to_string(),
    }
}

/// A shared file never leaves the download folder: the name under which it is
/// kept is one component, and not the one that leads upwards.
pub proof fn lemma_names_stay_inside(name: Seq<char>)
    ensures
        !safe_name(name).contains('/'),
        safe_name(name).len() > 0,
        safe_name(name) != ".."@,
        safe_name(name) != "."@,
{
    reveal_strlit("vortex-file");
    reveal_strlit("..");
    reveal_strlit(".");
    let s = without_tail(name);
    lemma_behind_slash(s);
    match final_name(name) {
        Some(n) => {
            if n == "."@ {
                lemma_without_tail(name);
                let k = behind_slash(s);
                assert(n.len() == 1 && k == s.len() - 1);
                assert(s[k] == n[0]);
                lemma_before_slash(s);
            }
        },
        None => {
            let v = "vortex-file"@;
            assert forall|i: int| 0 <= i < v.len() implies #[trigger] v[i] != '/' by {}
        },
    }
}

proof fn lemma_without_tail(s: Seq<char>)
    ensures
        ({
            let t = without_tail(s);
            t.len() > 0 ==> t.last() != '/' && !(t.last() == '.' && (t.len() == 1 || t[t.len() - 2]
                == '/'))
        }),
    decreases s.len(),
{
    if s.len() > 0 && (s.last() == '/' || (s.last() == '.' && (s.len() == 1 || s[s.len() - 2]
        == '/'))) {
        lemma_without_tail(s.drop_last());
    }
}

proof fn lemma_before_slash(s: Seq<char>)
    ensures
        behind_slash(s) > 0 ==> s[behind_slash(s) - 1] == '/',
    decreases s.len(),
{
    if s.len() > 0 && s.last() != '/' {
        lemma_before_slash(s.drop_last());
        lemma_behind_slash(s.drop_last());
    }
}

/// The position of the last dot, or -1.
pub open spec fn last_dot(s: Seq<char>) -> int
    decreases s.len(),
{
    if s.len() == 0 {
        -1
    } else if s.last() == '.' {
        s.len() - 1
    } else {
        last_dot(s.drop_last())
    }
}

/// The name with a number before its ending, as a browser would number it. A dot
/// at the front does not begin an ending.
pub open spec fn numbered(name: Seq<char>, n: nat) -> Seq<char> {
    let dot = last_dot(name);
    let number = " ("@ + text::decimal(n) + ")"@;
    if dot > 0 {
        name.take(dot) + number + name.skip(dot)
    } else {
        name + number
    }
}

/// The name with a number before its ending.
fn numbered_name(name: &str, n: u64) -> (r: String)
    ensures
        r@ == numbered(name@, n as nat),
{
    let chars = chars_of(name);
    let len: usize = chars.len();
    let mut dot: usize = len;
    assert(name@.take(dot as int) =~= name@);
    while dot > 0 && chars[dot - 1] != '.'
        invariant
            dot <= len == chars@.len(),
            chars@ == name@,
            last_dot(name@) == last_dot(name@.take(dot as int)),
        decreases dot,
    {
        assert(name@.take(dot as int).last() == chars@[dot - 1]);
        assert(name@.take(dot as int).drop_last() =~= name@.take(dot - 1));
        dot -= 1;
    }
    assert(last_dot(name@) == dot - 1) by {
        if dot > 0 {
            assert(name@.take(dot as int).last() == chars@[dot - 1]);
        }
    }
    let at: usize = if dot > 1 {
        dot - 1
    } else {
        len
    };
    let mut r = text_between(&chars, 0, at);
    r.append(" (");
    let digits = decimal_text(n);
    r.append(digits.as_str());
    r.append(")");
    let rest = text_between(&chars, at, len);
    r.append(rest.as_str());
    proof {
        let number = " ("@ + text::decimal(n as nat) + ")"@;
        assert(chars@.subrange(0, at as int) =~= name@.take(at as int));
        assert(chars@.subrange(at as int, len as int) =~= name@.skip(at as int));
        assert(r@ =~= name@.take(at as int) + number + name@.skip(at as int));
        if dot <= 1 {
            assert(name@.take(at as int) =~= name@);
            assert(r@ =~= name@ + number);
        }
    }
    r
}

/// The most numbers that are tried.
pub const MAX_NUMBER: u64 = 10_000;

/// The first free name from the number `n` on; the bare name when none is.
pub open spec fn first_free(name: Seq<char>, taken: Seq<Seq<char>>, n: nat) -> Seq<char>
    decreases MAX_NUMBER - n,
{
    if n >= MAX_NUMBER {
        name
    } else if !taken.contains(numbered(name, n)) {
        numbered(name, n)
    } else {
        first_free(name, taken, n + 1)
    }
}

/// The name under which a file is put into a folder that holds `taken`.
pub open spec fn free_name(name: Seq<char>, taken: Seq<Seq<char>>) -> Seq<char> {
    if taken.contains(name) {
        first_free(name, taken, 1)
    } else {
        name
    }
}

/// Whether `name` is one of `taken`.
fn is_taken(taken: &Vec<String>, name: &str) -> (r: bool)
    ensures
        r == text::texts(taken@).contains(name@),
{
    let mut i: usize = 0;
    while i < taken.len()
        invariant
            i <= taken@.len(),
            forall|j: int| 0 <= j < i ==> text::texts(taken@)[j] != name@,
        decreases taken.len() - i,
    {
        if same_text(taken[i].as_str(), name) {
            assert(text::texts(taken@)[i as int] == name@);
            return true;
        }
        i += 1;
    }
    false
}

/// The name under which a file is put into a folder that holds `taken`: its own,
/// or else the first number that is free.
pub fn unique_name(name: &str, taken: &Vec<String>) -> (r: String)
    ensures
        r@ == free_name(name@, text::texts(taken@)),
{
    if !is_taken(taken, name) {
        return name.to_string();
    }
    let mut n: u64 = 1;
    while n < MAX_NUMBER
        invariant
            1 <= n <= MAX_NUMBER,
            first_free(name@, text::texts(taken@), 1) == first_free(
                name@,
                text::texts(taken@),
                n as nat,
            ),
            text::texts(taken@).contains(name@),
        decreases MAX_NUMBER - n,
    {
        let candidate = numbered_name(name, n);
        if !is_taken(taken, candidate.as_str()) {
            return candidate;
        }
        n += 1;
    }
    name.to_string()
}

/// A file that is already there is not written over, as long as a number is
/// free.
pub proof fn lemma_nothing_is_clobbered(name: Seq<char>, taken: Seq<Seq<char>>, n: nat)
    requires
        1 <= n < MAX_NUMBER,
        !taken.contains(numbered(name, n)),
    ensures
        !taken.contains(free_name(name, taken)),
{
    if taken.contains(name) {
        lemma_first_free(name, taken, 1, n);
    }
}

proof fn lemma_first_free(name: Seq<char>, taken: Seq<Seq<char>>, from: nat, n: nat)
    requires
        from <= n < MAX_NUMBER,
        !taken.contains(numbered(name, n)),
    ensures
        !taken.contains(first_free(name, taken, from)),
    decreases n - from,
{
    if taken.contains(numbered(name, from)) {
        lemma_first_free(name, taken, from + 1, n);
    }
}

/// The name of the download folder, for a message.
pub fn downloads_label(dir: &Option<String>) -> (r: String)
    ensures
        r@ == match *dir {
            Some(d) => match final_name(d@) {
                Some(n) => n,
                None => "Downloads"@,
            },
            None => "Downloads"@,
        },
{
    match dir {
        Some(d) => match file_name(d.as_str()) {
            Some(n) => n,
            None => "Downloads".to_string(),
        },
        None => "Downloads".to_string(),
    }
}

/// Something that the phone offers: a file, or a picture on its clipboard.
#[derive(Debug, Clone, PartialEq, Eq)]
pub struct Offer<S = String> {
    pub token: S,
    pub name: S,
    pub mime: S,
    pub bytes: u64,
    pub is_file: bool,
}

impl View for Offer {
    type V = Offer<Seq<char>>;

    open spec fn view(&self) -> Offer<Seq<char>> {
        Offer {
            token: self.token@,
            name: self.name@,
            mime: self.mime@,
            bytes: self.bytes,
            is_file: self.is_file,
        }
    }
}

/// What a list of offers says.
pub open spec fn offer_views(v: Seq<Offer>) -> Seq<Offer<Seq<char>>> {
    v.map_values(|o: Offer| o@)
}

/// How long to wait for more files before asking the user, in milliseconds.
pub const DEBOUNCE_MS: u64 = 1_200;

/// Files that the phone offered and that the user was not asked about yet.
pub struct OfferBatch {
    pub files: Vec<Offer>,
}

impl View for OfferBatch {
    type V = Seq<Offer<Seq<char>>>;

    open spec fn view(&self) -> Seq<Offer<Seq<char>>> {
        offer_views(self.files@)
    }
}

/// What happened to the batch.
#[derive(Debug)]
pub enum OfferEvent<O = Offer> {
    Arrived(O),
    /// Nothing more came for a while.
    Quiet,
    /// Nothing more will come.
    Closed,
}

impl View for OfferEvent {
    type V = OfferEvent<Offer<Seq<char>>>;

    open spec fn view(&self) -> OfferEvent<Offer<Seq<char>>> {
        match self {
            OfferEvent::Arrived(o) => OfferEvent::Arrived(o@),
            OfferEvent::Quiet => OfferEvent::Quiet,
            OfferEvent::Closed => OfferEvent::Closed,
        }
    }
}

/// What follows.
#[derive(Debug)]
pub enum OfferAction<L = Vec<Offer>, S = String> {
    Wait,
    /// Fetch the picture with this token, without asking.
    PullImage(S),
    /// Ask the user about these files; `last` ends the batch for good.
    Ask { files: L, last: bool },
}

impl View for OfferAction {
    type V = OfferAction<Seq<Offer<Seq<char>>>, Seq<char>>;

    open spec fn view(&self) -> OfferAction<Seq<Offer<Seq<char>>>, Seq<char>> {
        match self {
            OfferAction::Wait => OfferAction::Wait,
            OfferAction::PullImage(t) => OfferAction::PullImage(t@),
            OfferAction::Ask { files, last } => OfferAction::Ask {
                files: offer_views(files@),
                last: *last,
            },
        }
    }
}

/// What follows an event.
pub open spec fn offer_step(
    batch: Seq<Offer<Seq<char>>>,
    ev: OfferEvent<Offer<Seq<char>>>,
    sync_on: bool,
) -> (Seq<Offer<Seq<char>>>, OfferAction<Seq<Offer<Seq<char>>>, Seq<char>>) {
    match ev {
        OfferEvent::Arrived(o) => if !sync_on {
            (batch, OfferAction::Wait)
        } else if o.is_file {
            (batch.push(o), OfferAction::Wait)
        } else {
            (batch, OfferAction::PullImage(o.token))
        },
        OfferEvent::Quiet => (Seq::empty(), OfferAction::Ask { files: batch, last: false }),
        OfferEvent::Closed => (Seq::empty(), OfferAction::Ask { files: batch, last: true }),
    }
}

impl OfferBatch {
    /// An empty batch.
    pub fn new() -> (r: Self)
        ensures
            r@ == Seq::<Offer<Seq<char>>>::empty(),
    {
        let r = OfferBatch { files: Vec::new() };
        assert(r@ =~= Seq::<Offer<Seq<char>>>::empty());
        r
    }

    /// How long to wait for the next offer: for ever while the batch is empty.
    pub fn patience_ms(&self) -> (r: Option<u64>)
        ensures
            r == if self@.len() == 0 {
                None
            } else {
                Some(DEBOUNCE_MS)
            },
    {
        if self.files.len() == 0 {
            None
        } else {
            Some(DEBOUNCE_MS)
        }
    }

    /// Takes note of an event and says what follows.
    pub fn step(&mut self, ev: OfferEvent, sync_on: bool) -> (r: OfferAction)
        ensures
            (final(self)@, r@) == offer_step(old(self)@, ev@, sync_on),
    {
        match ev {
            OfferEvent::Arrived(o) => {
                if !sync_on {
                    OfferAction::Wait
                } else if o.is_file {
                    let ghost ov = o@;
                    self.files.push(o);
                    assert(self@ =~= old(self)@.push(ov));
                    OfferAction::Wait
                } else {
                    OfferAction::PullImage(o.token)
                }
            },
            OfferEvent::Quiet => {
                let mut files: Vec<Offer> = Vec::new();
                std::mem::swap(&mut files, &mut self.files);
                assert(self@ =~= Seq::<Offer<Seq<char>>>::empty());
                OfferAction::Ask { files, last: false }
            },
            OfferEvent::Closed => {
                let mut files: Vec<Offer> = Vec::new();
                std::mem::swap(&mut files, &mut self.files);
                assert(self@ =~= Seq::<Offer<Seq<char>>>::empty());
                OfferAction::Ask { files, last: true }
            },
        }
    }
}

/// The size of a batch.
pub open spec fn batch_bytes(v: Seq<Offer<Seq<char>>>) -> int
    decreases v.len(),
{
    if v.len() == 0 {
        0
    } else {
        batch_bytes(v.drop_last()) + v.last().bytes
    }
}

/// What the user is asked about.
#[derive(Debug, PartialEq, Eq)]
pub struct BatchQuestion {
    pub label: String,
    pub count: usize,
    pub total: u64,
}

proof fn lemma_batch_grows(v: Seq<Offer<Seq<char>>>, n: int)
    requires
        0 <= n <= v.len(),
    ensures
        0 <= batch_bytes(v.take(n)) <= batch_bytes(v),
    decreases v.len(),
{
    if n == v.len() {
        assert(v.take(n) =~= v);
        if v.len() > 0 {
            lemma_batch_grows(v.drop_last(), v.len() - 1);
            assert(v.drop_last().take(v.len() - 1) =~= v.drop_last());
        }
    } else {
        lemma_batch_grows(v.drop_last(), n);
        assert(v.drop_last().take(n) =~= v.take(n));
    }
}

/// What the user is asked about a batch; nothing about an empty one.
pub fn batch_question(batch: &Vec<Offer>) -> (r: Option<BatchQuestion>)
    requires
        batch_bytes(offer_views(batch@)) <= u64::MAX,
    ensures
        batch@.len() == 0 <==> r is None,
        r matches Some(q) ==> {
            &&& q.count == batch@.len()
            &&& q.total == batch_bytes(offer_views(batch@))
            &&& q.label@ == if batch@.len() == 1 {
                batch@[0]@.name
            } else {
                text::decimal(batch@.len()) + " files"@
            }
        },
{
    if batch.len() == 0 {
        return None;
    }
    let ghost views = offer_views(batch@);
    let mut total: u64 = 0;
    let mut i: usize = 0;
    assert(views.take(0) =~= Seq::<Offer<Seq<char>>>::empty());
    while i < batch.len()
        invariant
            i <= batch@.len(),
            views == offer_views(batch@),
            batch_bytes(views) <= u64::MAX,
            total == batch_bytes(views.take(i as int)),
        decreases batch.len() - i,
    {
        proof {
            lemma_batch_grows(views, i + 1);
            assert(views.take(i + 1).drop_last() =~= views.take(i as int));
            assert(views.take(i + 1).last() == batch@[i as int]@);
        }
        total = total + batch[i].bytes;
        i += 1;
    }
    assert(views.take(views.len() as int) =~= views);
    let label = if batch.len() == 1 {
        batch[0].name.as_str().to_string()
    } else {
        let mut m = decimal_text(batch.len() as u64);
        m.append(" files");
        m
    };
    Some(BatchQuestion { label, count: batch.len(), total })
}

/// Files that arrive close together raise one question: no file asks for itself,
/// and none is lost before it is asked about.
pub proof fn lemma_files_are_asked_about_together(
    batch: Seq<Offer<Seq<char>>>,
    o: Offer<Seq<char>>,
)
    requires
        o.is_file,
    ensures
        offer_step(batch, OfferEvent::Arrived(o), true).1 is Wait,
        offer_step(offer_step(batch, OfferEvent::Arrived(o), true).0, OfferEvent::Quiet, true).1 == (
        OfferAction::<Seq<Offer<Seq<char>>>, Seq<char>>::Ask { files: batch.push(o), last: false }),
{
}

/// Tidying in terms of characters: what comes out neither begins nor ends with a line feed or a
/// carriage return, has no three line feeds in a row, and a text that is like that already comes
/// out as it is. Line feeds and carriage returns in front of a text make no difference, nor do
/// those behind it.
pub proof fn lemma_tidying_by_characters(s: Seq<char>, c: char)
    requires
        c == '\n' || c == '\r',
    ensures
        ({
            let t = tidied(s);
            &&& t.len() > 0 ==> t[0] != '\n' && t[0] != '\r' && t.last() != '\n' && t.last() != '\r'
            &&& forall|i: int|
                0 <= i < t.len() - 2 ==> !(#[trigger] t[i] == '\n' && t[i + 1] == '\n' && t[i + 2]
                    == '\n')
            &&& s.len() > 0 && s[0] != '\n' && s[0] != '\r' && s.last() != '\n' && s.last() != '\r'
                && (forall|i: int|
                0 <= i < s.len() - 2 ==> !(#[trigger] s[i] == '\n' && s[i + 1] == '\n' && s[i + 2]
                    == '\n')) ==> t == s
            &&& tidied(seq![c] + s) == t
            &&& tidied(s.push(c)) == t
        }),
{
    lemma_tidy_text_is_tight(s);
    assert((seq![c] + s).drop_first() =~= s);
    if s.len() > 0 && s[0] != '\n' && s[0] != '\r' && s.last() != '\n' && s.last() != '\r' && (
    forall|i: int|
        0 <= i < s.len() - 2 ==> !(#[trigger] s[i] == '\n' && s[i + 1] == '\n' && s[i + 2]
            == '\n')) {
        lemma_tight_text_is_kept(s);
    }
    lemma_skip_push(s, c);
}

proof fn lemma_skip_push(s: Seq<char>, c: char)
    requires
        is_break(c),
    ensures
        drop_breaks(skip_breaks(s.push(c))) == drop_breaks(skip_breaks(s)),
    decreases s.len(),
{
    let p = s.push(c);
    if s.len() > 0 && is_break(s[0]) {
        assert(p.drop_first() =~= s.drop_first().push(c));
        lemma_skip_push(s.drop_first(), c);
    } else if s.len() == 0 {
        assert(p.drop_first() =~= s);
    } else {
        assert(p.drop_last() =~= s);
    }
}

/// What is shared: a text goes to the phone exactly when sharing is on and its digest is not
/// that of what crossed last, and it goes under its own mark. A text that has reached the phone,
/// or came from it, or was put onto the clipboard by the laptop, is what crossed last.
pub proof fn lemma_what_goes_to_the_phone(
    st: &ClipSync,
    text: &str,
    mark: Option<String>,
    sent: &mut ClipSync,
    sig: String,
    after: &ClipSync,
    again: Option<String>,
)
    requires
        call_ensures(ClipSync::offer_text, (st, text), mark),
        call_ensures(ClipSync::text_sent, (sent, sig), ()),
        mark is Some && sig@ == mark->0@,
        after@ == final(sent)@,
        call_ensures(ClipSync::offer_text, (after, text), again),
    ensures
        st@.on,
        mark->0@ == clipboard::name_of(utf8::encode_utf8(text@)),
        mark->0@ != st@.last_text,
        again is None,
        final(sent)@.on == old(sent)@.on && final(sent)@.last_image == old(sent)@.last_image,
{
}

/// The other way round: with sharing on, a text with another digest than what crossed last does
/// go; with sharing off nothing goes and nothing is taken.
pub proof fn lemma_sharing_is_a_switch(
    st: ClipSync<Seq<char>>,
    text: Seq<char>,
    sig: Seq<char>,
    pixels: Option<(usize, usize, Seq<u8>)>,
)
    ensures
        st.on && clipboard::name_of(utf8::encode_utf8(text)) != st.last_text ==> text_offered(
            st,
            text,
        ) == Some(clipboard::name_of(utf8::encode_utf8(text))),
        clipboard::name_of(utf8::encode_utf8(text)) == st.last_text ==> text_offered(
            st,
            text,
        ) is None,
        !st.on ==> text_offered(st, text) is None && text_received(st, text) == (
            st,
            None::<Seq<char>>,
        ) && !image_offered(st, sig) && image_received(st, pixels) == st,
        st.on ==> (image_offered(st, sig) <==> sig != st.last_image),
        st.on && pixels is Some ==> !image_offered(
            image_received(st, pixels),
            image_sig((pixels->0).0, (pixels->0).1, (pixels->0).2),
        ),
        pixels is None ==> image_received(st, pixels) == st,
{
}

/// A text from the phone is put onto the clipboard tidy, unless nothing is left of it then, and
/// it is what crossed last from then on. The pictures are not concerned.
pub proof fn lemma_text_from_the_phone(st: ClipSync<Seq<char>>, raw: Seq<char>)
    requires
        st.on,
    ensures
        ({
            let (after, put) = text_received(st, raw);
            &&& tidied(raw).len() > 0 ==> put == Some(tidied(raw)) && after.last_text
                == clipboard::name_of(utf8::encode_utf8(tidied(raw)))
            &&& tidied(raw).len() == 0 ==> put is None && after == st
            &&& after.on && after.last_image == st.last_image
            &&& text_put(st, raw) == (after, put)
        }),
{
}

/// The mark of a picture depends on its size and its pixels: the four bytes of each measure, the
/// lowest first, and then the pixels.
pub proof fn lemma_mark_of_a_picture(n: u32)
    ensures
        le_bytes(n).len() == 4,
        le_bytes(n)[0] + 256 * le_bytes(n)[1] + 65_536 * le_bytes(n)[2] + 16_777_216 * le_bytes(
            n,
        )[3] == n,
{
}

/// A picture goes over the radio when sharing is on and it fits.
pub proof fn lemma_picture_must_fit(st: &ClipSync, len: usize, cap: usize, r: bool)
    requires
        call_ensures(ClipSync::queues_image, (st, len, cap), r),
    ensures
        r <==> st@.on && len <= cap,
{
}

proof fn lemma_behind_slash_at(s: Seq<char>, n: int)
    requires
        0 <= n <= s.len(),
        n == 0 || s[n - 1] == '/',
        forall|i: int| n <= i < s.len() ==> #[trigger] s[i] != '/',
    ensures
        behind_slash(s) == n,
    decreases s.len(),
{
    if s.len() > n {
        assert(s.last() == s[s.len() - 1]);
        lemma_behind_slash_at(s.drop_last(), n);
    } else if n > 0 {
        assert(s.last() == '/');
    }
}

/// A shared file keeps its name: a name without a slash that is not one of the two that mean a
/// directory is used as it is, and of a path it is what stands behind the last slash.
pub proof fn lemma_file_keeps_its_name(dir: Seq<char>, name: Seq<char>)
    requires
        name.len() > 0,
        forall|i: int| 0 <= i < name.len() ==> #[trigger] name[i] != '/',
        name != "."@,
        name != ".."@,
    ensures
        safe_name(name) == name,
        safe_name(dir + seq!['/'] + name) == name,
{
    reveal_strlit(".");
    let path = dir + seq!['/'] + name;
    if name.len() == 1 && name[0] == '.' {
        assert(name =~= "."@);
    }
    assert(name.last() == name[name.len() - 1]);
    assert(without_tail(name) == name) by {
        if name.len() > 1 {
            assert(name[name.len() - 2] != '/');
        }
    }
    assert(path.last() == name.last());
    assert(without_tail(path) == path) by {
        if name.len() > 1 {
            assert(path[path.len() - 2] == name[name.len() - 2]);
        }
    }
    lemma_behind_slash_at(name, 0);
    assert(name.skip(0) =~= name);
    let n = dir.len() + 1;
    assert forall|i: int| n <= i < path.len() implies #[trigger] path[i] != '/' by {
        assert(path[i] == name[i - n]);
    }
    lemma_behind_slash_at(path, n as int);
    assert(path.skip(n as int) =~= name);
}

/// What has no name of its own gets one.
pub proof fn lemma_nameless_file_gets_a_name(name: Seq<char>)
    requires
        name == ""@ || name == "."@ || name == ".."@ || name == "/"@,
    ensures
        safe_name(name) == "vortex-file"@,
{
    reveal_strlit("");
    reveal_strlit(".");
    reveal_strlit("..");
    reveal_strlit("/");
    reveal_with_fuel(without_tail, 3);
    reveal_with_fuel(behind_slash, 3);
    let s = without_tail(name);
    if name == ".."@ {
        assert(s == name);
        assert(behind_slash(s) == 0);
        assert(s.skip(0) =~= name);
    } else {
        assert(s.len() == 0);
    }
}

proof fn lemma_last_dot_at(s: Seq<char>, n: int)
    requires
        -1 <= n < s.len(),
        n >= 0 ==> s[n] == '.',
        forall|i: int| n < i < s.len() ==> #[trigger] s[i] != '.',
    ensures
        last_dot(s) == n,
    decreases s.len(),
{
    if s.len() > n + 1 {
        assert(s.last() == s[s.len() - 1]);
        lemma_last_dot_at(s.drop_last(), n);
    }
}

/// A number goes before the ending of a name, and behind a name without one.
pub proof fn lemma_where_the_number_goes(stem: Seq<char>, ending: Seq<char>, n: nat)
    requires
        stem.len() > 0,
        forall|i: int| 0 <= i < ending.len() ==> #[trigger] ending[i] != '.',
    ensures
        numbered(stem + seq!['.'] + ending, n) == stem + (" ("@ + text::decimal(n) + ")"@) + seq!['.']
            + ending,
        numbered(ending, n) == ending + (" ("@ + text::decimal(n) + ")"@),
{
    let name = stem + seq!['.'] + ending;
    let k = stem.len() as int;
    assert forall|i: int| k < i < name.len() implies #[trigger] name[i] != '.' by {
        assert(name[i] == ending[i - k - 1]);
    }
    lemma_last_dot_at(name, k);
    lemma_last_dot_at(ending, -1);
    assert(name.take(k) =~= stem);
    let number = " ("@ + text::decimal(n) + ")"@;
    assert(name.take(k) + number + name.skip(k) =~= stem + number + seq!['.'] + ending);
}

/// A name that is free is used as it is; one that is taken gets the lowest number that is free,
/// from 1 on.
pub proof fn lemma_lowest_free_number(name: Seq<char>, taken: Seq<Seq<char>>, n: nat)
    requires
        1 <= n < 10_000,
        !taken.contains(numbered(name, n)),
        forall|m: nat| 1 <= m < n ==> taken.contains(#[trigger] numbered(name, m)),
    ensures
        !taken.contains(name) ==> free_name(name, taken) == name,
        taken.contains(name) ==> free_name(name, taken) == numbered(name, n),
{
    lemma_first_free_is(name, taken, 1, n);
}

proof fn lemma_first_free_is(name: Seq<char>, taken: Seq<Seq<char>>, from: nat, n: nat)
    requires
        1 <= from <= n < 10_000,
        !taken.contains(numbered(name, n)),
        forall|m: nat| 1 <= m < n ==> taken.contains(#[trigger] numbered(name, m)),
    ensures
        first_free(name, taken, from) == numbered(name, n),
    decreases n - from,
{
    if from < n {
        assert(taken.contains(numbered(name, from)));
        lemma_first_free_is(name, taken, from + 1, n);
    }
}

/// What is done about an offer: a picture is fetched at once and a file joins those that the user
/// is asked about, as long as sharing is on; with sharing off nothing is. The question is about
/// all the files that came, and leaves none behind.
pub proof fn lemma_what_an_offer_does(
    batch: Seq<Offer<Seq<char>>>,
    o: Offer<Seq<char>>,
    on: bool,
)
    ensures
        offer_step(batch, OfferEvent::Arrived(o), false) == (
            batch,
            OfferAction::<Seq<Offer<Seq<char>>>, Seq<char>>::Wait,
        ),
        o.is_file ==> offer_step(batch, OfferEvent::Arrived(o), true) == (
            batch.push(o),
            OfferAction::<Seq<Offer<Seq<char>>>, Seq<char>>::Wait,
        ),
        !o.is_file ==> offer_step(batch, OfferEvent::Arrived(o), true) == (
            batch,
            OfferAction::<Seq<Offer<Seq<char>>>, Seq<char>>::PullImage(o.token),
        ),
        offer_step(batch, OfferEvent::Quiet, on).1 == (OfferAction::<
            Seq<Offer<Seq<char>>>,
            Seq<char>,
        >::Ask { files: batch, last: false }),
        offer_step(batch, OfferEvent::Closed, on).1 == (OfferAction::<
            Seq<Offer<Seq<char>>>,
            Seq<char>,
        >::Ask { files: batch, last: true }),
        offer_step(batch, OfferEvent::Quiet, on).0.len() == 0,
        offer_step(batch, OfferEvent::Closed, on).0.len() == 0,
{
}

/// The question about a batch: one file by its name, several by their number, and the size of
/// all of them together.
pub proof fn lemma_question_about_a_batch(
    batch: &Vec<Offer>,
    r: Option<BatchQuestion>,
    waiting: &OfferBatch,
    patience: Option<u64>,
)
    requires
        batch_bytes(offer_views(batch@)) <= u64::MAX,
        call_ensures(batch_question, (batch,), r),
        call_ensures(OfferBatch::patience_ms, (waiting,), patience),
    ensures
        r is Some <==> batch@.len() > 0,
        r is Some ==> r->0.count == batch@.len(),
        batch@.len() == 1 ==> r->0.label@ == batch@[0]@.name && r->0.total == batch@[0]@.bytes,
        batch@.len() > 1 ==> r->0.label@ == text::decimal(batch@.len()) + " files"@,
        patience is Some <==> waiting@.len() > 0,
        patience is Some ==> patience->0 == 1_200,
{
    if batch@.len() == 1 {
        let v = offer_views(batch@);
        assert(v.drop_last() =~= Seq::<Offer<Seq<char>>>::empty());
        assert(batch_bytes(v.drop_last()) == 0);
        assert(v.last() == batch@[0]@);
    }
}

/// The size of a batch is the sum of the sizes in it.
pub proof fn lemma_sizes_add_up(v: Seq<Offer<Seq<char>>>, o: Offer<Seq<char>>)
    ensures
        batch_bytes(Seq::<Offer<Seq<char>>>::empty()) == 0,
        batch_bytes(v.push(o)) == batch_bytes(v) + o.bytes,
{
    assert(v.push(o).drop_last() =~= v);
}

/// A path is a folder, a slash and a name, where the name is one.
pub proof fn lemma_path_has_a_folder(dir: Seq<char>, name: Seq<char>)
    requires
        name.len() > 0,
        forall|i: int| 0 <= i < name.len() ==> #[trigger] name[i] != '/',
        name != "."@,
        name != ".."@,
    ensures
        ({
            let path = dir + seq!['/'] + name;
            &&& without_tail(path) == path
            &&& behind_slash(path) == dir.len() + 1
            &&& path.take(behind_slash(path)) == dir.push('/')
            &&& final_name(path) == Some(name)
        }),
{
    reveal_strlit(".");
    let path = dir + seq!['/'] + name;
    if name.len() == 1 && name[0] == '.' {
        assert(name =~= "."@);
    }
    assert(path.last() == name.last());
    assert(name.last() == name[name.len() - 1]);
    assert(without_tail(path) == path) by {
        if name.len() > 1 {
            assert(path[path.len() - 2] == name[name.len() - 2]);
        }
    }
    let n = dir.len() + 1;
    assert forall|i: int| n <= i < path.len() implies #[trigger] path[i] != '/' by {
        assert(path[i] == name[i - n]);
    }
    lemma_behind_slash_at(path, n as int);
    assert(path.skip(n as int) =~= name);
    assert(path.take(n as int) =~= dir.push('/'));
}

/// A slash at the end of a path does not change what is its name.
pub proof fn lemma_slash_at_the_end(path: Seq<char>)
    ensures
        without_tail(path.push('/')) == without_tail(path),
        final_name(path.push('/')) == final_name(path),
{
    assert(path.push('/').drop_last() =~= path);
}

/// A picture that cannot be read is told so; one that can comes with its size and its pixels.
pub proof fn lemma_picture_is_read(png: &[u8], r: Result<(usize, usize, Vec<u8>), String>)
    requires
        call_ensures(clipboard_picture, (png,), r),
    ensures
        r is Ok <==> codec::png_read(png@) is Ok,
        r is Ok ==> (r->Ok_0).0 == (codec::png_read(png@)->Ok_0).0 && (r->Ok_0).1 == (codec::png_read(
            png@,
        )->Ok_0).1 && (r->Ok_0).2@ == (codec::png_read(png@)->Ok_0).2,
        r is Err ==> r->Err_0@ == "decode png: "@ + codec::png_read(png@)->Err_0,
{
}

/// Sharing is what it was last set to; a picture that was sent is remembered by its mark.
pub proof fn lemma_sharing_is_remembered(
    s: &mut ClipSync,
    on: bool,
    after: &ClipSync,
    r: bool,
    t: &mut ClipSync,
    sig: String,
    dir: &Option<String>,
    label: String,
)
    requires
        call_ensures(ClipSync::set_clipboard_sync, (s, on), ()),
        after@ == final(s)@,
        call_ensures(ClipSync::get_clipboard_sync, (after,), r),
        call_ensures(ClipSync::image_sent, (t, sig), ()),
        call_ensures(downloads_label, (dir,), label),
    ensures
        r == on,
        final(s)@.last_text == old(s)@.last_text,
        final(s)@.last_image == old(s)@.last_image,
        final(t)@.last_image == sig@,
        final(t)@.on == old(t)@.on,
        dir is None ==> label@ == "Downloads"@,
        dir is Some && final_name(dir->0@) is Some ==> label@ == final_name(dir->0@)->0,
        dir is Some && final_name(dir->0@) is None ==> label@ == "Downloads"@,
{
}

/// How long offers are gathered into one batch.
pub proof fn lemma_time_of_a_batch()
    ensures
        DEBOUNCE_MS == 1_200,
{
}

} // verus!
