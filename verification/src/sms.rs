//! The SMS mirror: messages arrive as one JSON stream cut into chunks, and a
//! login code in a fresh message is worth offering for pasting.

use vstd::prelude::*;
use vstd::utf8;

use crate::text;
use crate::text::{
    char_offsets, chars_of, is_alphabetic, is_alphanumeric, occurs, text_between, to_lowercase,
};

verus! {

/// One mirrored message.
#[derive(Debug, Clone)]
pub struct SmsMessage {
    pub id: String,
    pub address: String,
    pub body: String,
    /// 1 for a received message, 2 for a sent one.
    pub kind: i32,
    /// Epoch milliseconds.
    pub date: i64,
    /// The conversation that the message belongs to.
    pub thread: i64,
    /// 0 for unread, 1 for read.
    pub read: i32,
}

/// A received message that nobody has read.
pub open spec fn is_unread(m: SmsMessage) -> bool {
    m.kind == 1 && m.read == 0
}

/// `r` is the place of the newest message that was received and not read, and of
/// several with one date that of the last.
pub open spec fn is_newest_unread(messages: Seq<SmsMessage>, r: Option<usize>) -> bool {
    match r {
        Some(i) => {
            &&& i < messages.len()
            &&& is_unread(messages[i as int])
            &&& forall|j: int|
                0 <= j < messages.len() && is_unread(#[trigger] messages[j]) ==> messages[j].date
                    <= messages[i as int].date && (j > i ==> messages[j].date
                    < messages[i as int].date)
        },
        None => forall|j: int| 0 <= j < messages.len() ==> !is_unread(#[trigger] messages[j]),
    }
}

/// The place of the newest message that was received and not read, and of several
/// with one date that of the last.
pub fn newest_unread(messages: &Vec<SmsMessage>) -> (r: Option<usize>)
    ensures
        is_newest_unread(messages@, r),
{
    let mut best: Option<usize> = None;
    let mut i: usize = 0;
    while i < messages.len()
        invariant
            i <= messages@.len(),
            match best {
                Some(b) => {
                    &&& b < i
                    &&& is_unread(messages@[b as int])
                    &&& forall|j: int|
                        0 <= j < i && is_unread(#[trigger] messages@[j]) ==> messages@[j].date
                            <= messages@[b as int].date && (j > b ==> messages@[j].date
                            < messages@[b as int].date)
                },
                None => forall|j: int| 0 <= j < i ==> !is_unread(#[trigger] messages@[j]),
            },
        decreases messages.len() - i,
    {
        if messages[i].kind == 1 && messages[i].read == 0 {
            let newer = match best {
                Some(b) => messages[b].date <= messages[i].date,
                None => true,
            };
            if newer {
                best = Some(i);
            }
        }
        i += 1;
    }
    best
}

/// The number that two bytes write, the high byte first.
pub open spec fn be16(hi: u8, lo: u8) -> int {
    hi * 256 + lo
}

/// Reads a chunk frame: the number of chunks and the chunk's index, each as two
/// bytes with the high byte first, then the chunk itself.
pub fn parse_chunk(plain: &[u8]) -> (r: Option<(u16, u16, Vec<u8>)>)
    ensures
        r is None <==> plain@.len() < 4,
        match r {
            Some((total, idx, chunk)) => {
                &&& total == be16(plain@[0], plain@[1])
                &&& idx == be16(plain@[2], plain@[3])
                &&& chunk@ == plain@.skip(4)
            },
            None => true,
        },
{
    if plain.len() < 4 {
        return None;
    }
    let total: u16 = plain[0] as u16 * 256 + plain[1] as u16;
    let idx: u16 = plain[2] as u16 * 256 + plain[3] as u16;
    let mut chunk: Vec<u8> = Vec::new();
    let mut i: usize = 4;
    while i < plain.len()
        invariant
            4 <= i <= plain@.len(),
            chunk@ == plain@.subrange(4, i as int),
        decreases plain.len() - i,
    {
        chunk.push(plain[i]);
        assert(plain@.subrange(4, i + 1) == plain@.subrange(4, i as int).push(plain@[i as int]));
        i += 1;
    }
    assert(plain@.subrange(4, plain@.len() as int) == plain@.skip(4));
    Some((total, idx, chunk))
}

/// The largest number of chunks that a stream may announce.
pub const MAX_CHUNKS: u16 = 2048;

/// Puts the chunks of one stream back together.
pub struct SmsAssembler {
    total: u16,
    chunks: Vec<Option<Vec<u8>>>,
}

/// What is known of a stream: one slot for every chunk.
pub open spec fn slots_of(chunks: Seq<Option<Vec<u8>>>) -> Seq<Option<Seq<u8>>> {
    chunks.map_values(
        |c: Option<Vec<u8>>|
            match c {
                Some(v) => Some(v@),
                None => None,
            },
    )
}

/// Every chunk has arrived.
pub open spec fn is_complete(slots: Seq<Option<Seq<u8>>>) -> bool {
    forall|i: int| 0 <= i < slots.len() ==> (#[trigger] slots[i]) is Some
}

/// The chunks that have arrived, one after the other.
pub open spec fn joined(slots: Seq<Option<Seq<u8>>>) -> Seq<u8>
    decreases slots.len(),
{
    if slots.len() == 0 {
        Seq::empty()
    } else {
        joined(slots.drop_last()) + (match slots.last() {
            Some(c) => c,
            None => Seq::empty(),
        })
    }
}

/// A chunk is taken in when its index lies below an announced number of chunks
/// that is neither zero nor above the cap.
pub open spec fn chunk_accepted(total: u16, idx: u16) -> bool {
    0 < total <= MAX_CHUNKS && idx < total
}

/// The slots after taking in a chunk: an announced number that differs from the
/// one so far starts over with empty slots.
pub open spec fn slots_after(
    slots: Seq<Option<Seq<u8>>>,
    total: u16,
    idx: u16,
    data: Seq<u8>,
) -> Seq<Option<Seq<u8>>> {
    let base = if slots.len() == total {
        slots
    } else {
        Seq::new(total as nat, |i: int| None)
    };
    base.update(idx as int, Some(data))
}

/// One call: the announced number of chunks, the chunk's index, and the chunk.
pub struct Chunk {
    pub total: u16,
    pub idx: u16,
    pub data: Seq<u8>,
}

/// What taking in a chunk does to the slots, and the stream that comes out. A
/// chunk that is not taken in changes nothing, and the one that completes the
/// stream leaves no slots behind.
pub open spec fn add_step(slots: Seq<Option<Seq<u8>>>, c: Chunk) -> (
    Seq<Option<Seq<u8>>>,
    Option<Seq<u8>>,
) {
    let after = slots_after(slots, c.total, c.idx, c.data);
    if !chunk_accepted(c.total, c.idx) {
        (slots, None)
    } else if is_complete(after) {
        (Seq::empty(), Some(joined(after)))
    } else {
        (after, None)
    }
}

impl View for SmsAssembler {
    type V = Seq<Option<Seq<u8>>>;

    closed spec fn view(&self) -> Seq<Option<Seq<u8>>> {
        slots_of(self.chunks@)
    }
}

impl Default for SmsAssembler {
    fn default() -> (r: Self)
        ensures
            r@ == Seq::<Option<Seq<u8>>>::empty(),
    {
        let r = SmsAssembler { total: 0, chunks: Vec::new() };
        assert(r@ =~= Seq::<Option<Seq<u8>>>::empty());
        r
    }
}

impl SmsAssembler {
    #[verifier::type_invariant]
    spec fn one_slot_per_chunk(self) -> bool {
        self.chunks@.len() == self.total
    }

    /// Takes in one chunk, and gives the whole stream back when it was the last
    /// one missing; the assembler is then empty again.
    pub fn add(&mut self, total: u16, idx: u16, data: Vec<u8>) -> (r: Option<Vec<u8>>)
        ensures
            (
                final(self)@,
                match r {
                    Some(bytes) => Some(bytes@),
                    None => None,
                },
            ) == add_step(old(self)@, (Chunk { total, idx, data: data@ })),
    {
        if total == 0 || total > MAX_CHUNKS || idx >= total {
            return None;
        }
        proof {
            use_type_invariant(&*self);
        }
        let mut before = SmsAssembler::default();
        std::mem::swap(self, &mut before);
        let mut chunks: Vec<Option<Vec<u8>>> = before.chunks;
        if before.total != total {
            chunks = Vec::new();
            let mut i: u16 = 0;
            while i < total
                invariant
                    i <= total,
                    chunks@.len() == i,
                    forall|k: int| 0 <= k < i ==> (#[trigger] chunks@[k]) is None,
                decreases total - i,
            {
                chunks.push(None);
                i += 1;
            }
        }
        let ghost slots = slots_after(old(self)@, total, idx, data@);
        chunks.set(idx as usize, Some(data));
        assert(slots_of(chunks@) =~= slots);
        let mut missing = false;
        let mut i: usize = 0;
        while i < chunks.len()
            invariant
                i <= chunks@.len(),
                missing <==> exists|k: int| 0 <= k < i && (#[trigger] chunks@[k]) is None,
            decreases chunks.len() - i,
        {
            if chunks[i].is_none() {
                missing = true;
            }
            i += 1;
        }
        if missing {
            proof {
                let k = choose|k: int| 0 <= k < chunks@.len() && (#[trigger] chunks@[k]) is None;
                assert(slots[k] is None);
            }
            *self = SmsAssembler { total, chunks };
            return None;
        }
        assert(is_complete(slots)) by {
            assert forall|k: int| 0 <= k < slots.len() implies (#[trigger] slots[k]) is Some by {
                assert(chunks@[k] is Some);
            }
        }
        let mut bytes: Vec<u8> = Vec::new();
        let mut j: usize = 0;
        assert(slots.take(0) =~= Seq::<Option<Seq<u8>>>::empty());
        while j < chunks.len()
            invariant
                j <= chunks@.len(),
                slots == slots_of(chunks@),
                is_complete(slots),
                bytes@ == joined(slots.take(j as int)),
            decreases chunks.len() - j,
        {
            assert(slots[j as int] is Some);
            match &chunks[j] {
                Some(c) => {
                    let mut k: usize = 0;
                    let ghost before = bytes@;
                    while k < c.len()
                        invariant
                            k <= c@.len(),
                            bytes@ == before + c@.take(k as int),
                        decreases c.len() - k,
                    {
                        bytes.push(c[k]);
                        assert(c@.take(k + 1) == c@.take(k as int).push(c@[k as int]));
                        k += 1;
                    }
                    assert(c@.take(c@.len() as int) == c@);
                },
                None => {},
            }
            assert(slots.take(j + 1).drop_last() == slots.take(j as int));
            j += 1;
        }
        assert(slots.take(slots.len() as int) == slots);
        *self = SmsAssembler { total: 0, chunks: Vec::new() };
        assert(self@ =~= Seq::<Option<Seq<u8>>>::empty());
        Some(bytes)
    }
}

/// What has arrived agrees with the stream `parts`.
pub open spec fn agrees_with(slots: Seq<Option<Seq<u8>>>, parts: Seq<Seq<u8>>) -> bool {
    &&& slots.len() == parts.len() || slots.len() == 0
    &&& forall|i: int| 0 <= i < slots.len() ==> ((#[trigger] slots[i]) is None || slots[i] == Some(
        parts[i],
    ))
}

/// The pieces of a stream, one after the other.
pub open spec fn whole(parts: Seq<Seq<u8>>) -> Seq<u8>
    decreases parts.len(),
{
    if parts.len() == 0 {
        Seq::empty()
    } else {
        whole(parts.drop_last()) + parts.last()
    }
}

/// Taking in one chunk of a stream keeps the slots in agreement with it, whichever
/// chunk it is and whether or not it came before: a chunk that came stays, and when
/// all slots are filled, what they join to is the stream, in order.
pub proof fn lemma_order_does_not_matter(
    slots: Seq<Option<Seq<u8>>>,
    parts: Seq<Seq<u8>>,
    idx: u16,
)
    requires
        agrees_with(slots, parts),
        parts.len() <= MAX_CHUNKS,
        chunk_accepted(parts.len() as u16, idx),
    ensures
        ({
            let after = slots_after(slots, parts.len() as u16, idx, parts[idx as int]);
            &&& agrees_with(after, parts)
            &&& after[idx as int] == Some(parts[idx as int])
            &&& forall|i: int|
                0 <= i < slots.len() && (#[trigger] slots[i]) is Some ==> after[i] == slots[i]
            &&& is_complete(after) ==> joined(after) == whole(parts)
        }),
{
    let after = slots_after(slots, parts.len() as u16, idx, parts[idx as int]);
    assert(agrees_with(after, parts));
    if is_complete(after) {
        assert forall|i: int| 0 <= i < after.len() implies #[trigger] after[i] == Some(
            parts[i],
        ) by {
            assert(after[i] is Some);
        }
        lemma_joined_whole(after, parts);
    }
}

proof fn lemma_joined_whole(slots: Seq<Option<Seq<u8>>>, parts: Seq<Seq<u8>>)
    requires
        slots.len() == parts.len(),
        forall|i: int| 0 <= i < slots.len() ==> #[trigger] slots[i] == Some(parts[i]),
    ensures
        joined(slots) == whole(parts),
    decreases slots.len(),
{
    if slots.len() > 0 {
        lemma_joined_whole(slots.drop_last(), parts.drop_last());
    }
}

/// The slots after the first `n` calls on a fresh assembler.
pub open spec fn slots_at(calls: Seq<Chunk>, n: int) -> Seq<Option<Seq<u8>>>
    decreases n,
{
    if n <= 0 {
        Seq::empty()
    } else {
        add_step(slots_at(calls, n - 1), calls[n - 1]).0
    }
}

/// What call `j` on a fresh assembler returns.
pub open spec fn returned(calls: Seq<Chunk>, j: int) -> Option<Seq<u8>> {
    add_step(slots_at(calls, j), calls[j]).1
}

/// Call `j` is taken in.
pub open spec fn taken_in(calls: Seq<Chunk>, j: int) -> bool {
    0 <= j < calls.len() && chunk_accepted(calls[j].total, calls[j].idx)
}

/// The calls that are taken in deliver each chunk of `parts` once, in some order.
/// Any number of calls that are not taken in may stand between them.
pub open spec fn delivers(calls: Seq<Chunk>, parts: Seq<Seq<u8>>) -> bool {
    &&& 0 < parts.len() <= MAX_CHUNKS
    &&& forall|j: int| #[trigger]
        taken_in(calls, j) ==> calls[j].total == parts.len() && calls[j].data
            == parts[calls[j].idx as int]
    &&& forall|j: int, k: int|
        #![trigger taken_in(calls, j), taken_in(calls, k)]
        taken_in(calls, j) && taken_in(calls, k) && j != k ==> calls[j].idx != calls[k].idx
    &&& forall|i: int| 0 <= i < parts.len() ==> #[trigger] arrived(calls, calls.len() as int, i)
}

/// Chunk `i` is among the first `n` calls.
pub open spec fn arrived(calls: Seq<Chunk>, n: int, i: int) -> bool {
    exists|j: int| 0 <= j < n && #[trigger] taken_in(calls, j) && calls[j].idx == i
}

/// All chunks of `parts` are among the first `n` calls.
pub open spec fn all_arrived(calls: Seq<Chunk>, parts: Seq<Seq<u8>>, n: int) -> bool {
    forall|i: int| 0 <= i < parts.len() ==> #[trigger] arrived(calls, n, i)
}

/// What is known after the first `n` calls: once all chunks have arrived the slots
/// are gone, and before that they hold what has arrived.
pub open spec fn slots_fit(calls: Seq<Chunk>, parts: Seq<Seq<u8>>, n: int) -> bool {
    let slots = slots_at(calls, n);
    if all_arrived(calls, parts, n) {
        slots == Seq::<Option<Seq<u8>>>::empty()
    } else {
        &&& agrees_with(slots, parts)
        &&& forall|i: int| 0 <= i < parts.len() ==> (#[trigger] arrived(calls, n, i) <==> i
            < slots.len() && slots[i] is Some)
    }
}

proof fn lemma_slots_fit(calls: Seq<Chunk>, parts: Seq<Seq<u8>>, n: int)
    requires
        delivers(calls, parts),
        0 <= n <= calls.len(),
    ensures
        slots_fit(calls, parts, n),
        n > 0 ==> returned(calls, n - 1) == (if taken_in(calls, n - 1) && all_arrived(
            calls,
            parts,
            n,
        ) {
            Some(whole(parts))
        } else {
            None
        }),
    decreases n,
{
    if n == 0 {
        assert(!arrived(calls, 0, 0));
    } else {
        lemma_slots_fit(calls, parts, n - 1);
        let c = calls[n - 1];
        let before = slots_at(calls, n - 1);
        if !taken_in(calls, n - 1) {
            assert forall|i: int| #[trigger] arrived(calls, n, i) == arrived(calls, n - 1, i) by {
                if arrived(calls, n, i) {
                    let j = choose|j: int|
                        0 <= j < n && #[trigger] taken_in(calls, j) && calls[j].idx == i;
                    assert(j < n - 1);
                }
            }
            assert(all_arrived(calls, parts, n) == all_arrived(calls, parts, n - 1)) by {
                if all_arrived(calls, parts, n - 1) {
                    assert forall|i: int| 0 <= i < parts.len() implies #[trigger] arrived(
                        calls,
                        n,
                        i,
                    ) by {
                        assert(arrived(calls, n - 1, i));
                    }
                }
                if all_arrived(calls, parts, n) {
                    assert forall|i: int| 0 <= i < parts.len() implies #[trigger] arrived(
                        calls,
                        n - 1,
                        i,
                    ) by {
                        assert(arrived(calls, n, i));
                    }
                }
            }
        } else {
            let a = c.idx as int;
            assert(!arrived(calls, n - 1, a)) by {
                if arrived(calls, n - 1, a) {
                    let j = choose|j: int|
                        0 <= j < n - 1 && #[trigger] taken_in(calls, j) && calls[j].idx == a;
                    assert(calls[j].idx != calls[n - 1].idx);
                }
            }
            assert(arrived(calls, n, a)) by {
                assert(taken_in(calls, n - 1));
            }
            assert forall|i: int| i != a implies #[trigger] arrived(calls, n, i) == arrived(
                calls,
                n - 1,
                i,
            ) by {
                if arrived(calls, n, i) {
                    let j = choose|j: int|
                        0 <= j < n && #[trigger] taken_in(calls, j) && calls[j].idx == i;
                    assert(j < n - 1);
                }
                if arrived(calls, n - 1, i) {
                    let j = choose|j: int|
                        0 <= j < n - 1 && #[trigger] taken_in(calls, j) && calls[j].idx == i;
                    assert(0 <= j < n && taken_in(calls, j));
                }
            }
            lemma_order_does_not_matter(before, parts, c.idx);
            let after = slots_after(before, c.total, c.idx, c.data);
            assert forall|i: int| 0 <= i < parts.len() implies (#[trigger] arrived(calls, n, i)
                <==> after[i] is Some) by {
                if i != a {
                    assert(arrived(calls, n - 1, i) <==> i < before.len() && before[i] is Some);
                }
            }
            if is_complete(after) {
                assert forall|i: int| 0 <= i < parts.len() implies #[trigger] arrived(
                    calls,
                    n,
                    i,
                ) by {
                    assert(after[i] is Some);
                }
            } else {
                let i = choose|i: int| 0 <= i < after.len() && !((#[trigger] after[i]) is Some);
                assert(!arrived(calls, n, i));
            }
        }
    }
}

/// A stream comes out whole, whatever the order in which its chunks come and
/// whatever is refused between them: of all the calls on a fresh assembler only
/// the one that brings the last missing chunk returns something, which is the
/// stream in order, and the assembler is as good as new afterwards.
pub proof fn lemma_stream_comes_out(calls: Seq<Chunk>, parts: Seq<Seq<u8>>, last: int)
    requires
        delivers(calls, parts),
        taken_in(calls, last),
        forall|j: int| #[trigger] taken_in(calls, j) ==> j <= last,
    ensures
        forall|j: int|
            0 <= j < calls.len() ==> #[trigger] returned(calls, j) == (if j == last {
                Some(whole(parts))
            } else {
                None
            }),
        slots_at(calls, calls.len() as int) == Seq::<Option<Seq<u8>>>::empty(),
{
    assert forall|j: int| 0 <= j < calls.len() implies #[trigger] returned(calls, j) == (if j
        == last {
        Some(whole(parts))
    } else {
        None
    }) by {
        lemma_slots_fit(calls, parts, j + 1);
        assert(returned(calls, j + 1 - 1) == returned(calls, j));
        if j == last {
            assert forall|i: int| 0 <= i < parts.len() implies #[trigger] arrived(
                calls,
                j + 1,
                i,
            ) by {
                assert(arrived(calls, calls.len() as int, i));
                let k = choose|k: int|
                    0 <= k < calls.len() && #[trigger] taken_in(calls, k) && calls[k].idx == i;
                assert(0 <= k < j + 1 && taken_in(calls, k));
            }
        } else if taken_in(calls, j) {
            let a = calls[last].idx as int;
            assert(!arrived(calls, j + 1, a)) by {
                if arrived(calls, j + 1, a) {
                    let k = choose|k: int|
                        0 <= k < j + 1 && #[trigger] taken_in(calls, k) && calls[k].idx == a;
                    assert(calls[k].idx != calls[last].idx);
                }
            }
        }
    }
    lemma_slots_fit(calls, parts, calls.len() as int);
}

/// The shortest and the longest digit run that can be a login code.
pub const OTP_MIN: usize = 4;

pub const OTP_MAX: usize = 8;

/// How many bytes may lie between a digit run and a word that describes it.
pub const OTP_HINT_WINDOW: usize = 48;

/// The words that mark a number near them as a login code, in English, Uzbek and
/// Russian.
pub open spec fn otp_hints() -> Seq<Seq<char>> {
    seq![
        "code"@,
        "otp"@,
        "pin"@,
        "password"@,
        "verification"@,
        "verify"@,
        "one-time"@,
        "kod"@,
        "kodi"@,
        "kodingiz"@,
        "parol"@,
        "tasdiq"@,
        "bir martalik"@,
        "код"@,
        "коды"@,
        "пароль"@,
        "подтверж"@,
        "одноразов"@,
    ]
}

/// Hint `h` stands in `lower` at character `k` as a word of its own: the
/// characters on either side of it, where there are any, are no word characters.
pub open spec fn hint_at(lower: Seq<char>, word: Seq<bool>, h: int, k: int) -> bool {
    &&& 0 <= h < otp_hints().len()
    &&& text::occurs_at(lower, otp_hints()[h], k)
    &&& k == 0 || !word[k - 1]
    &&& k + otp_hints()[h].len() == lower.len() || !word[k + otp_hints()[h].len()]
}

/// The bytes of `lower` that hint `h` takes up at character `k`.
pub open spec fn hint_span(lower: Seq<char>, h: int, k: int) -> (int, int) {
    (
        utf8::encode_utf8(lower.take(k)).len() as int,
        utf8::encode_utf8(lower.take(k + otp_hints()[h].len())).len() as int,
    )
}

/// How strongly a hint on the bytes `span` speaks for the digits on the bytes
/// `start` to `end`: a hint before the number counts for more than one behind
/// it, a nearer one for more than a farther one, and one beyond the window for
/// nothing.
pub open spec fn hint_strength(span: (int, int), start: int, end: int) -> int {
    let (distance, weight) = if span.1 <= start {
        (start - span.1, 56int)
    } else if span.0 >= end {
        (span.0 - end, 32int)
    } else {
        (0int, 56int)
    };
    if distance <= OTP_HINT_WINDOW {
        weight + (OTP_HINT_WINDOW - distance)
    } else {
        0
    }
}

/// `p` is the strength of the strongest hint for the digits from `start` to
/// `end`, and 0 when no hint speaks for them.
pub open spec fn is_proximity(
    lower: Seq<char>,
    word: Seq<bool>,
    start: int,
    end: int,
    p: int,
) -> bool {
    &&& forall|h: int, k: int| #[trigger]
        hint_at(lower, word, h, k) ==> hint_strength(hint_span(lower, h, k), start, end) <= p
    &&& p == 0 || exists|h: int, k: int| #[trigger]
        hint_at(lower, word, h, k) && hint_strength(hint_span(lower, h, k), start, end) == p
}

pub open spec fn is_digit_char(c: char) -> bool {
    '0' <= c <= '9'
}

/// A letter of any script. Signs and numerals, such as a raised two, are none.
pub open spec fn is_letter_char(c: char) -> bool {
    'a' <= c <= 'z' || 'A' <= c <= 'Z' || (c > '\u{7f}' && text::alphabetic(c))
}

/// Which characters of a text are letters.
pub open spec fn letters_of(s: Seq<char>) -> Seq<bool> {
    s.map_values(|c: char| is_letter_char(c))
}

/// One of `.`, `,`, `:`, `-` and `/`, which group the digits of amounts, dates
/// and times.
pub open spec fn is_group_char(c: char) -> bool {
    c == '.' || c == ',' || c == ':' || c == '-' || c == '/'
}

/// What is known of a message: its text, which characters of that are letters,
/// the text in small letters, and which characters of that belong to a word.
pub struct Reading {
    pub body: Seq<char>,
    pub letters: Seq<bool>,
    pub lower: Seq<char>,
    pub word: Seq<bool>,
}

/// The characters from `start` to `end` are digits, and no digit stands beside
/// them.
pub open spec fn is_digit_run(s: Seq<char>, start: int, end: int) -> bool {
    &&& 0 <= start < end <= s.len()
    &&& forall|i: int| start <= i < end ==> is_digit_char(#[trigger] s[i])
    &&& start == 0 || !is_digit_char(s[start - 1])
    &&& end == s.len() || !is_digit_char(s[end])
}

/// A digit run that looks like a code: of the right length, not glued to a plus
/// sign or a letter, and not one group of a longer number.
pub open spec fn looks_like_code(s: Seq<char>, letters: Seq<bool>, start: int, end: int) -> bool {
    &&& is_digit_run(s, start, end)
    &&& OTP_MIN <= end - start <= OTP_MAX
    &&& start == 0 || (s[start - 1] != '+' && !letters[start - 1])
    &&& end == s.len() || !letters[end]
    &&& !(start >= 2 && is_group_char(s[start - 1]) && is_digit_char(s[start - 2]))
    &&& !(end + 1 < s.len() && is_group_char(s[end]) && is_digit_char(s[end + 1]))
}

/// Six digits are the usual length of a code, five the next.
pub open spec fn length_rank(len: int) -> int {
    if len == 6 {
        3
    } else if len == 5 {
        2
    } else {
        1
    }
}

/// The byte on which character `i` of a text starts.
pub open spec fn byte_at(s: Seq<char>, i: int) -> int {
    utf8::encode_utf8(s.take(i)).len() as int
}

/// The run from `start` to `end` is a possible code: it looks like one, and hints
/// speak for it, the strongest of them with the strength `near`.
pub open spec fn otp_candidate(m: Reading, start: int, end: int, near: int) -> bool {
    &&& looks_like_code(m.body, m.letters, start, end)
    &&& near > 0
    &&& is_proximity(m.lower, m.word, byte_at(m.body, start), byte_at(m.body, end), near)
}

/// The possible code `a` is preferred to `b`, each given as start, end and
/// strength: the nearer to a hint wins, between two as near the one of the more
/// usual length, and between two of the same length the first.
pub open spec fn preferred(a: (int, int, int), b: (int, int, int)) -> bool {
    ||| b.2 < a.2
    ||| b.2 == a.2 && length_rank(b.1 - b.0) < length_rank(a.1 - a.0)
    ||| b.2 == a.2 && length_rank(b.1 - b.0) == length_rank(a.1 - a.0) && a.0 <= b.0
}

/// `r` is the login code of a message: the possible code that is preferred to all
/// the others, and nothing when there is none.
pub open spec fn is_otp(m: Reading, r: Option<Seq<char>>) -> bool {
    match r {
        None => forall|s: int, e: int, x: int| !otp_candidate(m, s, e, x),
        Some(code) => exists|start: int, end: int, near: int|
            {
                &&& #[trigger] otp_candidate(m, start, end, near)
                &&& code == m.body.subrange(start, end)
                &&& forall|s: int, e: int, x: int| #[trigger]
                    otp_candidate(m, s, e, x) ==> preferred((start, end, near), (s, e, x))
            },
    }
}

fn hint_words() -> (r: Vec<Vec<char>>)
    ensures
        r.len() == otp_hints().len(),
        forall|h: int| 0 <= h < otp_hints().len() ==> (#[trigger] r@[h])@ == otp_hints()[h],
{
    let mut r: Vec<Vec<char>> = Vec::new();
    r.push(chars_of("code"));
    r.push(chars_of("otp"));
    r.push(chars_of("pin"));
    r.push(chars_of("password"));
    r.push(chars_of("verification"));
    r.push(chars_of("verify"));
    r.push(chars_of("one-time"));
    r.push(chars_of("kod"));
    r.push(chars_of("kodi"));
    r.push(chars_of("kodingiz"));
    r.push(chars_of("parol"));
    r.push(chars_of("tasdiq"));
    r.push(chars_of("bir martalik"));
    r.push(chars_of("код"));
    r.push(chars_of("коды"));
    r.push(chars_of("пароль"));
    r.push(chars_of("подтверж"));
    r.push(chars_of("одноразов"));
    r
}

/// The spans of all the hints in a message.
pub open spec fn lists_hints(
    spans: Seq<(usize, usize)>,
    lower: Seq<char>,
    word: Seq<bool>,
) -> bool {
    &&& forall|i: int| 0 <= i < spans.len() ==> is_hint_span(lower, word, #[trigger] spans[i])
    &&& forall|h: int, k: int| #[trigger]
        hint_at(lower, word, h, k) ==> lists_span(spans, hint_span(lower, h, k))
}

pub open spec fn is_hint_span(lower: Seq<char>, word: Seq<bool>, span: (usize, usize)) -> bool {
    exists|h: int, k: int| #[trigger]
        hint_at(lower, word, h, k) && hint_span(lower, h, k) == (span.0 as int, span.1 as int)
}

pub open spec fn lists_span(spans: Seq<(usize, usize)>, span: (int, int)) -> bool {
    exists|i: int|
        0 <= i < spans.len() && ((#[trigger] spans[i]).0 as int, spans[i].1 as int) == span
}

fn find_hints(lower: &str, word: &Vec<bool>) -> (spans: Vec<(usize, usize)>)
    requires
        word@.len() == lower@.len(),
    ensures
        lists_hints(spans@, lower@, word@),
{
    let chars = chars_of(lower);
    let offs = char_offsets(lower, &chars);
    let words = hint_words();
    let mut spans: Vec<(usize, usize)> = Vec::new();
    let mut h: usize = 0;
    while h < words.len()
        invariant
            chars@ == lower@,
            word@.len() == lower@.len(),
            offs.len() == lower@.len() + 1,
            forall|k: int|
                0 <= k <= lower@.len() ==> #[trigger] offs@[k] == utf8::encode_utf8(
                    lower@.take(k),
                ).len(),
            words.len() == otp_hints().len(),
            forall|i: int| 0 <= i < otp_hints().len() ==> (#[trigger] words@[i])@ == otp_hints()[i],
            h <= words.len(),
            forall|i: int|
                0 <= i < spans.len() ==> is_hint_span(lower@, word@, #[trigger] spans@[i]),
            forall|g: int, k: int| #[trigger]
                hint_at(lower@, word@, g, k) && g < h ==> lists_span(
                    spans@,
                    hint_span(lower@, g, k),
                ),
        decreases words.len() - h,
    {
        let n: usize = words[h].len();
        let mut k: usize = 0;
        while k < chars.len()
            invariant
                chars@ == lower@,
                word@.len() == lower@.len(),
                offs.len() == lower@.len() + 1,
                forall|k: int|
                    0 <= k <= lower@.len() ==> #[trigger] offs@[k] == utf8::encode_utf8(
                        lower@.take(k),
                    ).len(),
                words.len() == otp_hints().len(),
                forall|i: int|
                    0 <= i < otp_hints().len() ==> (#[trigger] words@[i])@ == otp_hints()[i],
                h < words.len(),
                n == words@[h as int]@.len(),
                n == otp_hints()[h as int].len(),
                k <= chars.len(),
                forall|i: int|
                    0 <= i < spans.len() ==> is_hint_span(lower@, word@, #[trigger] spans@[i]),
                forall|g: int, j: int| #[trigger]
                    hint_at(lower@, word@, g, j) && (g < h || (g == h && j < k)) ==> lists_span(
                        spans@,
                        hint_span(lower@, g, j),
                    ),
            decreases chars.len() - k,
        {
            let ghost before = spans@;
            if occurs(&chars, &words[h], k) && (k == 0 || !word[k - 1]) && (k + n == chars.len()
                || !word[k + n]) {
                assert(hint_at(lower@, word@, h as int, k as int));
                spans.push((offs[k], offs[k + n]));
                assert(hint_span(lower@, h as int, k as int) == (
                    offs@[k as int] as int,
                    offs@[k + n] as int,
                ));
                assert(is_hint_span(lower@, word@, (offs@[k as int], offs@[k + n])));
                assert(spans@[before.len() as int] == (offs@[k as int], offs@[k + n]));
                assert(lists_span(spans@, hint_span(lower@, h as int, k as int)));
            }
            assert forall|g: int, j: int| #[trigger]
                hint_at(lower@, word@, g, j) && (g < h || (g == h && j < k
                    + 1)) implies lists_span(spans@, hint_span(lower@, g, j)) by {
                if !(g == h && j == k) {
                    assert(lists_span(before, hint_span(lower@, g, j)));
                    let i = choose|i: int|
                        0 <= i < before.len() && ((#[trigger] before[i]).0 as int, before[i].1 as int)
                            == hint_span(lower@, g, j);
                    assert(spans@[i] == before[i]);
                }
            }
            k += 1;
        }
        assert forall|g: int, j: int| #[trigger]
            hint_at(lower@, word@, g, j) && g < h + 1 implies lists_span(
            spans@,
            hint_span(lower@, g, j),
        ) by {
            lemma_hints_are_words(g);
        }
        h += 1;
    }
    spans
}

/// No hint is the empty word.
proof fn lemma_hints_are_words(h: int)
    requires
        0 <= h < otp_hints().len(),
    ensures
        otp_hints()[h].len() > 0,
{
    reveal_strlit("code");
    reveal_strlit("otp");
    reveal_strlit("pin");
    reveal_strlit("password");
    reveal_strlit("verification");
    reveal_strlit("verify");
    reveal_strlit("one-time");
    reveal_strlit("kod");
    reveal_strlit("kodi");
    reveal_strlit("kodingiz");
    reveal_strlit("parol");
    reveal_strlit("tasdiq");
    reveal_strlit("bir martalik");
    reveal_strlit("код");
    reveal_strlit("коды");
    reveal_strlit("пароль");
    reveal_strlit("подтверж");
    reveal_strlit("одноразов");
}

fn find_proximity(
    spans: &Vec<(usize, usize)>,
    start: usize,
    end: usize,
    Ghost(lower): Ghost<Seq<char>>,
    Ghost(word): Ghost<Seq<bool>>,
) -> (p: i32)
    requires
        lists_hints(spans@, lower, word),
        start <= end,
    ensures
        is_proximity(lower, word, start as int, end as int, p as int),
        p >= 0,
{
    let mut p: i32 = 0;
    let mut i: usize = 0;
    while i < spans.len()
        invariant
            lists_hints(spans@, lower, word),
            i <= spans.len(),
            0 <= p <= 104,
            forall|j: int|
                0 <= j < i ==> hint_strength(
                    ((#[trigger] spans@[j]).0 as int, spans@[j].1 as int),
                    start as int,
                    end as int,
                ) <= p,
            p == 0 || exists|h: int, k: int| #[trigger]
                hint_at(lower, word, h, k) && hint_strength(
                    hint_span(lower, h, k),
                    start as int,
                    end as int,
                ) == p,
        decreases spans.len() - i,
    {
        let (hs, he): (usize, usize) = spans[i];
        let (distance, weight): (usize, i32) = if he <= start {
            (start - he, 56)
        } else if hs >= end {
            (hs - end, 32)
        } else {
            (0, 56)
        };
        assert(is_hint_span(lower, word, spans@[i as int]));
        if distance <= OTP_HINT_WINDOW {
            let near: i32 = weight + (OTP_HINT_WINDOW - distance) as i32;
            assert(near == hint_strength((hs as int, he as int), start as int, end as int));
            if near > p {
                p = near;
            }
        }
        i += 1;
    }
    assert forall|h: int, k: int| #[trigger] hint_at(lower, word, h, k) implies hint_strength(
        hint_span(lower, h, k),
        start as int,
        end as int,
    ) <= p by {
        assert(lists_span(spans@, hint_span(lower, h, k)));
    }
    p
}

/// No possible code starts before character `i`.
pub open spec fn none_before(m: Reading, i: int) -> bool {
    forall|s: int, e: int, x: int| #[trigger] otp_candidate(m, s, e, x) ==> s >= i
}

/// The preferred one of the possible codes that start before character `i`.
pub open spec fn best_before(m: Reading, i: int, best: (int, int, int)) -> bool {
    &&& best.0 < i
    &&& otp_candidate(m, best.0, best.1, best.2)
    &&& forall|s: int, e: int, x: int| #[trigger]
        otp_candidate(m, s, e, x) && s < i ==> preferred(best, (s, e, x))
}

/// Two digit runs that share their start are the same run.
proof fn lemma_one_run(s: Seq<char>, start: int, e1: int, e2: int)
    requires
        is_digit_run(s, start, e1),
        is_digit_run(s, start, e2),
    ensures
        e1 == e2,
{
    if e1 < e2 {
        assert(is_digit_char(s[e1]));
    }
    if e2 < e1 {
        assert(is_digit_char(s[e2]));
    }
}

fn is_digit(c: char) -> (r: bool)
    ensures
        r == is_digit_char(c),
{
    '0' <= c && c <= '9'
}

fn is_letter(c: char) -> (r: bool)
    ensures
        r == is_letter_char(c),
{
    ('a' <= c && c <= 'z') || ('A' <= c && c <= 'Z') || (c > '\u{7f}' && is_alphabetic(c))
}

fn is_group(c: char) -> (r: bool)
    ensures
        r == is_group_char(c),
{
    c == '.' || c == ',' || c == ':' || c == '-' || c == '/'
}

fn rank_of(len: usize) -> (r: u8)
    ensures
        r == length_rank(len as int),
{
    if len == 6 {
        3
    } else if len == 5 {
        2
    } else {
        1
    }
}

fn glued(s: &Vec<char>, letters: &Vec<bool>, start: usize, end: usize) -> (r: bool)
    requires
        letters@.len() == s@.len(),
        is_digit_run(s@, start as int, end as int),
        OTP_MIN <= end - start <= OTP_MAX,
    ensures
        r == !looks_like_code(s@, letters@, start as int, end as int),
{
    if start > 0 && (s[start - 1] == '+' || letters[start - 1]) {
        return true;
    }
    if end < s.len() && letters[end] {
        return true;
    }
    if start >= 2 && is_group(s[start - 1]) && is_digit(s[start - 2]) {
        return true;
    }
    end < s.len() && is_group(s[end]) && end + 1 < s.len() && is_digit(s[end + 1])
}

/// The login code of the message `body`, given which of its characters are
/// letters, the message in small letters, and which characters of that belong to
/// a word.
pub fn extract_otp_among(
    body: &str,
    letters: &Vec<bool>,
    lower: &str,
    word: &Vec<bool>,
) -> (r: Option<String>)
    requires
        letters@.len() == body@.len(),
        word@.len() == lower@.len(),
    ensures
        is_otp(
            (Reading { body: body@, letters: letters@, lower: lower@, word: word@ }),
            text::maybe(r),
        ),
{
    let spans = find_hints(lower, word);
    let chars = chars_of(body);
    let offs = char_offsets(body, &chars);
    let ghost m = Reading { body: body@, letters: letters@, lower: lower@, word: word@ };
    let mut best: Option<(usize, usize, i32)> = None;
    let mut i: usize = 0;
    while i < chars.len()
        invariant
            chars@ == m.body,
            letters@ == m.letters,
            letters@.len() == chars@.len(),
            offs.len() == chars@.len() + 1,
            forall|k: int|
                0 <= k <= chars@.len() ==> #[trigger] offs@[k] == utf8::encode_utf8(
                    m.body.take(k),
                ).len(),
            lists_hints(spans@, m.lower, m.word),
            i <= chars@.len(),
            i == 0 || i == chars@.len() || !is_digit_char(chars@[i as int]) || !is_digit_char(
                chars@[i - 1],
            ),
            match best {
                None => none_before(m, i as int),
                Some((s, e, x)) => best_before(m, i as int, (s as int, e as int, x as int)),
            },
        decreases chars.len() - i,
    {
        if !is_digit(chars[i]) {
            assert forall|s: int, e: int, x: int| #[trigger]
                otp_candidate(m, s, e, x) implies s != i by {
                if s == i {
                    assert(is_digit_char(m.body[s]));
                }
            }
            i += 1;
            continue;
        }
        let start: usize = i;
        while i < chars.len() && is_digit(chars[i])
            invariant
                start <= i <= chars@.len(),
                forall|j: int| start <= j < i ==> is_digit_char(#[trigger] chars@[j]),
            decreases chars.len() - i,
        {
            i += 1;
        }
        let end: usize = i;
        assert(is_digit_run(m.body, start as int, end as int));
        assert forall|s: int, e: int, x: int| #[trigger]
            otp_candidate(m, s, e, x) && start <= s < end implies s == start && e == end by {
            if s > start {
                assert(is_digit_char(m.body[s - 1]));
            }
            lemma_one_run(m.body, start as int, e, end as int);
        }
        let len: usize = end - start;
        if len < OTP_MIN || len > OTP_MAX || glued(&chars, letters, start, end) {
            continue;
        }
        proof {
            text::lemma_offsets_grow(m.body, start as int, end as int);
        }
        let near: i32 = find_proximity(
            &spans,
            offs[start],
            offs[end],
            Ghost(m.lower),
            Ghost(m.word),
        );
        proof {
            lemma_proximity(
                m.lower,
                m.word,
                byte_at(m.body, start as int),
                byte_at(m.body, end as int),
                near as int,
            );
        }
        if near == 0 {
            continue;
        }
        assert(otp_candidate(m, start as int, end as int, near as int));
        let better = match best {
            None => true,
            Some((s, e, x)) => near > x || (near == x && rank_of(len) > rank_of(e - s)),
        };
        if better {
            best = Some((start, end, near));
        }
    }
    match best {
        None => {
            assert forall|s: int, e: int, x: int| !otp_candidate(m, s, e, x) by {}
            None
        },
        Some((start, end, near)) => {
            assert(otp_candidate(m, start as int, end as int, near as int));
            Some(text_between(&chars, start, end))
        },
    }
}

/// A strength is found at most once.
proof fn lemma_proximity(lower: Seq<char>, word: Seq<bool>, start: int, end: int, p: int)
    requires
        is_proximity(lower, word, start, end, p),
        p >= 0,
    ensures
        forall|q: int| #[trigger] is_proximity(lower, word, start, end, q) && q >= 0 ==> q == p,
{
}

/// The login code of the message `body`, given the message in small letters and,
/// for each character of that, whether it belongs to a word.
pub fn extract_otp_from(body: &str, lower: &str, word: &Vec<bool>) -> (r: Option<String>)
    requires
        word@.len() == lower@.len(),
    ensures
        is_otp(
            (Reading { body: body@, letters: letters_of(body@), lower: lower@, word: word@ }),
            text::maybe(r),
        ),
{
    let chars = chars_of(body);
    let mut letters: Vec<bool> = Vec::new();
    let mut i: usize = 0;
    while i < chars.len()
        invariant
            i <= chars.len(),
            letters@.len() == i,
            forall|k: int| 0 <= k < i ==> #[trigger] letters@[k] == is_letter_char(chars@[k]),
        decreases chars.len() - i,
    {
        letters.push(is_letter(chars[i]));
        i += 1;
    }
    assert(letters@ =~= letters_of(body@));
    extract_otp_among(body, &letters, lower, word)
}

/// The one-time login code in a message, if it plausibly has one.
///
/// A hint word must stand near the number: plenty of ordinary texts hold a bare
/// number of four to eight digits, and offering one of those for pasting is
/// worse than missing a code.
pub fn extract_otp(body: &str) -> (r: Option<String>)
    ensures
        is_otp(
            (Reading {
                body: body@,
                letters: letters_of(body@),
                lower: text::lowercased(body@),
                word: text::lowercased(body@).map_values(|c: char| text::alphanumeric(c)),
            }),
            text::maybe(r),
        ),
{
    let lower = to_lowercase(body);
    let chars = chars_of(lower.as_str());
    let mut word: Vec<bool> = Vec::new();
    let mut i: usize = 0;
    while i < chars.len()
        invariant
            i <= chars.len(),
            word@.len() == i,
            forall|k: int| 0 <= k < i ==> #[trigger] word@[k] == text::alphanumeric(chars@[k]),
        decreases chars.len() - i,
    {
        word.push(is_alphanumeric(chars[i]));
        i += 1;
    }
    assert(word@ =~= text::lowercased(body@).map_values(|c: char| text::alphanumeric(c)));
    extract_otp_from(body, lower.as_str(), &word)
}

/// A message without a hint word has no login code, whatever numbers it holds.
pub proof fn lemma_no_hint_no_code(m: Reading, r: Option<Seq<char>>)
    requires
        is_otp(m, r),
        forall|h: int, k: int| !hint_at(m.lower, m.word, h, k),
    ensures
        r is None,
{
}

/// A login code is four to eight digits that the message spells out, with neither
/// a plus sign nor a letter beside them.
pub proof fn lemma_code_is_digits(m: Reading, code: Seq<char>)
    requires
        is_otp(m, Some(code)),
    ensures
        OTP_MIN <= code.len() <= OTP_MAX,
        text::all_digits(code),
        exists|start: int|
            {
                &&& #[trigger] text::occurs_at(m.body, code, start)
                &&& start == 0 || (m.body[start - 1] != '+' && !m.letters[start - 1])
                &&& start + code.len() == m.body.len() || !m.letters[start + code.len()]
            },
{
    let (start, end, near) = choose|start: int, end: int, near: int|
        {
            &&& #[trigger] otp_candidate(m, start, end, near)
            &&& code == m.body.subrange(start, end)
        };
    assert(text::occurs_at(m.body, code, start));
    assert forall|i: int| 0 <= i < code.len() implies '0' <= #[trigger] code[i] <= '9' by {
        assert(is_digit_char(m.body[start + i]));
    }
}

/// The number nearest to a hint is the code: no other number that could be one
/// has a hint that speaks for it more strongly.
pub proof fn lemma_nearest_wins(m: Reading, code: Seq<char>, s: int, e: int, x: int)
    requires
        is_otp(m, Some(code)),
        otp_candidate(m, s, e, x),
    ensures
        exists|start: int, end: int, near: int|
            {
                &&& #[trigger] otp_candidate(m, start, end, near)
                &&& code == m.body.subrange(start, end)
                &&& near >= x
            },
{
}

/// A message has one login code or none: the choice leaves nothing open.
pub proof fn lemma_one_code(m: Reading, r1: Option<Seq<char>>, r2: Option<Seq<char>>)
    requires
        is_otp(m, r1),
        is_otp(m, r2),
    ensures
        r1 == r2,
{
    if r1 is Some && r2 is Some {
        let c1 = r1->0;
        let c2 = r2->0;
        let (s1, e1, x1) = choose|start: int, end: int, near: int|
            {
                &&& #[trigger] otp_candidate(m, start, end, near)
                &&& c1 == m.body.subrange(start, end)
                &&& forall|s: int, e: int, x: int| #[trigger]
                    otp_candidate(m, s, e, x) ==> preferred((start, end, near), (s, e, x))
            };
        let (s2, e2, x2) = choose|start: int, end: int, near: int|
            {
                &&& #[trigger] otp_candidate(m, start, end, near)
                &&& c2 == m.body.subrange(start, end)
                &&& forall|s: int, e: int, x: int| #[trigger]
                    otp_candidate(m, s, e, x) ==> preferred((start, end, near), (s, e, x))
            };
        assert(s1 == s2);
        lemma_one_run(m.body, s1, e1, e2);
    }
}

proof fn lemma_strongest_hint(
    lower: Seq<char>,
    word: Seq<bool>,
    start: int,
    end: int,
    h: int,
    k: int,
    bound: nat,
) -> (p: int)
    requires
        hint_at(lower, word, h, k),
        hint_strength(hint_span(lower, h, k), start, end) > 0,
        forall|g: int, j: int| #[trigger]
            hint_at(lower, word, g, j) ==> hint_strength(hint_span(lower, g, j), start, end)
                <= bound,
    ensures
        p > 0,
        is_proximity(lower, word, start, end, p),
    decreases bound,
{
    if exists|g: int, j: int| #[trigger]
        hint_at(lower, word, g, j) && hint_strength(hint_span(lower, g, j), start, end) == bound {
        bound as int
    } else {
        assert(hint_strength(hint_span(lower, h, k), start, end) <= bound);
        assert forall|g: int, j: int| #[trigger] hint_at(lower, word, g, j) implies hint_strength(
            hint_span(lower, g, j),
            start,
            end,
        ) <= bound - 1 by {
            assert(hint_strength(hint_span(lower, g, j), start, end) <= bound);
        }
        lemma_strongest_hint(lower, word, start, end, h, k, (bound - 1) as nat)
    }
}

proof fn lemma_offset_order(s: Seq<char>, i: int, j: int)
    requires
        0 <= i <= j <= s.len(),
    ensures
        byte_at(s, i) <= byte_at(s, j),
{
    text::lemma_offsets_grow(s, i, j);
}

/// A hint word finds the code: in a message that holds one of these words as a word of
/// its own, and within 48 bytes of it four to eight digits that stand alone, a code is
/// found; and it is these digits where the message has no others. Digits stand alone that
/// have no further digit, letter or plus sign beside them and are not one group of an
/// amount, a date or a time.
pub proof fn lemma_hint_word_finds_the_code(
    m: Reading,
    r: Option<Seq<char>>,
    w: Seq<char>,
    k: int,
    start: int,
    end: int,
)
    requires
        is_otp(m, r),
        w == "code"@ || w == "otp"@ || w == "pin"@ || w == "password"@ || w == "verification"@
            || w == "verify"@ || w == "one-time"@ || w == "kod"@ || w == "kodi"@ || w ==
            "kodingiz"@ || w == "parol"@ || w == "tasdiq"@ || w == "bir martalik"@ || w ==
            "код"@ || w == "коды"@ || w == "пароль"@ || w == "подтверж"@ || w == "одноразов"@,
        0 <= k <= k + w.len() <= m.lower.len(),
        m.lower.subrange(k, k + w.len() as int) == w,
        k == 0 || !m.word[k - 1],
        k + w.len() == m.lower.len() || !m.word[k + w.len()],
        0 <= start < end <= m.body.len(),
        4 <= end - start <= 8,
        forall|i: int| start <= i < end ==> '0' <= #[trigger] m.body[i] <= '9',
        start > 0 ==> !('0' <= m.body[start - 1] <= '9') && m.body[start - 1] != '+'
            && !m.letters[start - 1],
        end < m.body.len() ==> !('0' <= m.body[end] <= '9') && !m.letters[end],
        start >= 2 && '0' <= m.body[start - 2] <= '9' ==> m.body[start - 1] != '.'
            && m.body[start - 1] != ',' && m.body[start - 1] != ':' && m.body[start - 1] != '-'
            && m.body[start - 1] != '/',
        end + 1 < m.body.len() && '0' <= m.body[end + 1] <= '9' ==> m.body[end] != '.'
            && m.body[end] != ',' && m.body[end] != ':' && m.body[end] != '-' && m.body[end]
            != '/',
        utf8::encode_utf8(m.body.take(start)).len() <= utf8::encode_utf8(
            m.lower.take(k + w.len()),
        ).len() + 48,
        utf8::encode_utf8(m.lower.take(k)).len() <= utf8::encode_utf8(m.body.take(end)).len() + 48,
    ensures
        r is Some,
        (forall|i: int|
            0 <= i < m.body.len() && !(start <= i < end) ==> !('0' <= #[trigger] m.body[i] <= '9'))
            ==> r == Some(m.body.subrange(start, end)),
{
    let hints = otp_hints();
    assert(hints[0] == "code"@ && hints[1] == "otp"@ && hints[2] == "pin"@ && hints[3] ==
        "password"@ && hints[4] == "verification"@ && hints[5] == "verify"@ && hints[6] ==
        "one-time"@ && hints[7] == "kod"@ && hints[8] == "kodi"@ && hints[9] == "kodingiz"@ &&
        hints[10] == "parol"@ && hints[11] == "tasdiq"@ && hints[12] == "bir martalik"@ &&
        hints[13] == "код"@ && hints[14] == "коды"@ && hints[15] == "пароль"@ && hints[16] ==
        "подтверж"@ && hints[17] == "одноразов"@);
    let h = choose|h: int| 0 <= h < 18 && w == #[trigger] hints[h];
    assert(0 <= h < 18 && w == hints[h]) by {
        if w == "code"@ {
            assert(w == hints[0]);
        }
        if w == "otp"@ {
            assert(w == hints[1]);
        }
        if w == "pin"@ {
            assert(w == hints[2]);
        }
        if w == "password"@ {
            assert(w == hints[3]);
        }
        if w == "verification"@ {
            assert(w == hints[4]);
        }
        if w == "verify"@ {
            assert(w == hints[5]);
        }
        if w == "one-time"@ {
            assert(w == hints[6]);
        }
        if w == "kod"@ {
            assert(w == hints[7]);
        }
        if w == "kodi"@ {
            assert(w == hints[8]);
        }
        if w == "kodingiz"@ {
            assert(w == hints[9]);
        }
        if w == "parol"@ {
            assert(w == hints[10]);
        }
        if w == "tasdiq"@ {
            assert(w == hints[11]);
        }
        if w == "bir martalik"@ {
            assert(w == hints[12]);
        }
        if w == "код"@ {
            assert(w == hints[13]);
        }
        if w == "коды"@ {
            assert(w == hints[14]);
        }
        if w == "пароль"@ {
            assert(w == hints[15]);
        }
        if w == "подтверж"@ {
            assert(w == hints[16]);
        }
        if w == "одноразов"@ {
            assert(w == hints[17]);
        }
    }
    assert(text::occurs_at(m.lower, w, k));
    assert(hint_at(m.lower, m.word, h, k));
    let from = byte_at(m.body, start);
    let to = byte_at(m.body, end);
    assert(hint_strength(hint_span(m.lower, h, k), from, to) > 0);
    assert forall|g: int, j: int| #[trigger] hint_at(m.lower, m.word, g, j) implies hint_strength(
        hint_span(m.lower, g, j),
        from,
        to,
    ) <= 104 by {
    }
    let p = lemma_strongest_hint(m.lower, m.word, from, to, h, k, 104);
    assert(is_digit_run(m.body, start, end));
    assert(looks_like_code(m.body, m.letters, start, end));
    assert(otp_candidate(m, start, end, p));
    if forall|i: int|
        0 <= i < m.body.len() && !(start <= i < end) ==> !('0' <= #[trigger] m.body[i] <= '9') {
        let code = r->0;
        let (s, e, x) = choose|s: int, e: int, x: int|
            #[trigger] otp_candidate(m, s, e, x) && code == m.body.subrange(s, e);
        assert(is_digit_char(m.body[s]));
        if s > start {
            assert(is_digit_char(m.body[s - 1]));
        }
        lemma_one_run(m.body, start, e, end);
    }
}

/// A message that is a hint word, a space and four to eight digits has these digits as its
/// login code, whichever of the words it is. Neither a space nor a digit is a letter, and a
/// space belongs to no word.
pub proof fn lemma_every_hint_word_counts(m: Reading, r: Option<Seq<char>>, w: Seq<char>, digits: Seq<char>)
    requires
        is_otp(m, r),
        w == "code"@ || w == "otp"@ || w == "pin"@ || w == "password"@ || w == "verification"@
            || w == "verify"@ || w == "one-time"@ || w == "kod"@ || w == "kodi"@ || w ==
            "kodingiz"@ || w == "parol"@ || w == "tasdiq"@ || w == "bir martalik"@ || w ==
            "код"@ || w == "коды"@ || w == "пароль"@ || w == "подтверж"@ || w == "одноразов"@,
        4 <= digits.len() <= 8,
        forall|i: int| 0 <= i < digits.len() ==> '0' <= #[trigger] digits[i] <= '9',
        m.body == w + seq![' '] + digits,
        m.lower == m.body,
        m.letters.len() == m.body.len() && m.word.len() == m.lower.len(),
        !m.letters[w.len() as int],
        !m.word[w.len() as int],
    ensures
        r == Some(digits),
{
    let n = w.len() as int;
    let start = n + 1;
    let end = m.body.len() as int;
    assert(n > 0 && forall|i: int| 0 <= i < n ==> !('0' <= #[trigger] w[i] <= '9')) by {
        lemma_hint_words_hold_no_digits(w);
    }
    assert(m.lower.subrange(0, n) =~= w);
    assert(m.lower.take(n) =~= w);
    assert(m.body.take(start) =~= w + seq![' ']);
    text::lemma_encode_concat(w, seq![' ']);
    assert(utf8::encode_utf8(seq![' ']).len() == 1) by {
        reveal_with_fuel(utf8::encode_utf8, 2);
        utf8::char_is_scalar(' ');
        assert(seq![' '].drop_first() =~= Seq::<char>::empty());
    }
    assert(m.lower.take(0) =~= Seq::<char>::empty());
    assert forall|i: int| start <= i < end implies '0' <= #[trigger] m.body[i] <= '9' by {
        assert(m.body[i] == digits[i - start]);
    }
    assert(m.body[n] == ' ');
    assert forall|i: int| 0 <= i < m.body.len() && !(start <= i < end) implies !('0'
        <= #[trigger] m.body[i] <= '9') by {
        if i < n {
            assert(m.body[i] == w[i]);
        }
    }
    assert(m.body[n - 1] == w[n - 1]);
    lemma_hint_word_finds_the_code(m, r, w, 0, start, end);
    assert(m.body.subrange(start, end) =~= digits);
}

proof fn lemma_hint_words_hold_no_digits(w: Seq<char>)
    requires
        w == "code"@ || w == "otp"@ || w == "pin"@ || w == "password"@ || w == "verification"@
            || w == "verify"@ || w == "one-time"@ || w == "kod"@ || w == "kodi"@ || w ==
            "kodingiz"@ || w == "parol"@ || w == "tasdiq"@ || w == "bir martalik"@ || w ==
            "код"@ || w == "коды"@ || w == "пароль"@ || w == "подтверж"@ || w == "одноразов"@,
    ensures
        w.len() > 0,
        forall|i: int| 0 <= i < w.len() ==> !('0' <= #[trigger] w[i] <= '9'),
{
    reveal_strlit("code");
    reveal_strlit("otp");
    reveal_strlit("pin");
    reveal_strlit("password");
    reveal_strlit("verification");
    reveal_strlit("verify");
    reveal_strlit("one-time");
    reveal_strlit("kod");
    reveal_strlit("kodi");
    reveal_strlit("kodingiz");
    reveal_strlit("parol");
    reveal_strlit("tasdiq");
    reveal_strlit("bir martalik");
    reveal_strlit("код");
    reveal_strlit("коды");
    reveal_strlit("пароль");
    reveal_strlit("подтверж");
    reveal_strlit("одноразов");
}

/// Only a hint word finds a code: whatever is offered for pasting stands in the message,
/// within 48 bytes of one of these words, which is a word of its own there.
pub proof fn lemma_code_has_a_hint_word(m: Reading, code: Seq<char>)
    requires
        is_otp(m, Some(code)),
    ensures
        exists|w: Seq<char>, k: int, start: int|
            {
                &&& w == "code"@ || w == "otp"@ || w == "pin"@ || w == "password"@ || w ==
                    "verification"@ || w == "verify"@ || w == "one-time"@ || w == "kod"@ || w ==
                    "kodi"@ || w == "kodingiz"@ || w == "parol"@ || w == "tasdiq"@ || w ==
                    "bir martalik"@ || w == "код"@ || w == "коды"@ || w == "пароль"@ || w ==
                    "подтверж"@ || w == "одноразов"@
                &&& #[trigger] text::occurs_at(m.lower, w, k)
                &&& k == 0 || !m.word[k - 1]
                &&& k + w.len() == m.lower.len() || !m.word[k + w.len()]
                &&& #[trigger] text::occurs_at(m.body, code, start)
                &&& utf8::encode_utf8(m.body.take(start)).len() <= utf8::encode_utf8(
                    m.lower.take(k + w.len()),
                ).len() + 48
                &&& utf8::encode_utf8(m.lower.take(k)).len() <= utf8::encode_utf8(
                    m.body.take(start + code.len()),
                ).len() + 48
            },
{
    let (start, end, near) = choose|start: int, end: int, near: int|
        #[trigger] otp_candidate(m, start, end, near) && code == m.body.subrange(start, end);
    let from = byte_at(m.body, start);
    let to = byte_at(m.body, end);
    let (h, k) = choose|h: int, k: int| #[trigger]
        hint_at(m.lower, m.word, h, k) && hint_strength(hint_span(m.lower, h, k), from, to) == near;
    let w = otp_hints()[h];
    assert(text::occurs_at(m.lower, w, k));
    assert(text::occurs_at(m.body, code, start));
    lemma_offset_order(m.body, start, end);
    lemma_offset_order(m.lower, k, k + w.len());
}

/// A login code stands alone: four to eight digits of the message, with no further digit,
/// letter or plus sign beside them, that are not one group of an amount, a date or a time.
pub proof fn lemma_code_stands_alone(m: Reading, code: Seq<char>)
    requires
        is_otp(m, Some(code)),
    ensures
        4 <= code.len() <= 8,
        forall|i: int| 0 <= i < code.len() ==> '0' <= #[trigger] code[i] <= '9',
        exists|start: int|
            {
                let end = start + code.len();
                &&& #[trigger] text::occurs_at(m.body, code, start)
                &&& start > 0 ==> !('0' <= m.body[start - 1] <= '9') && m.body[start - 1] != '+'
                    && !m.letters[start - 1]
                &&& end < m.body.len() ==> !('0' <= m.body[end] <= '9') && !m.letters[end]
                &&& start >= 2 && '0' <= m.body[start - 2] <= '9' ==> m.body[start - 1] != '.'
                    && m.body[start - 1] != ',' && m.body[start - 1] != ':' && m.body[start - 1]
                    != '-' && m.body[start - 1] != '/'
                &&& end + 1 < m.body.len() && '0' <= m.body[end + 1] <= '9' ==> m.body[end] != '.'
                    && m.body[end] != ',' && m.body[end] != ':' && m.body[end] != '-' && m.body[end]
                    != '/'
            },
{
    let (start, end, near) = choose|start: int, end: int, near: int|
        #[trigger] otp_candidate(m, start, end, near) && code == m.body.subrange(start, end);
    assert(text::occurs_at(m.body, code, start));
    assert forall|i: int| 0 <= i < code.len() implies '0' <= #[trigger] code[i] <= '9' by {
        assert(is_digit_char(m.body[start + i]));
    }
    assert(start + code.len() == end);
}

/// A number right behind a hint word beats a number that the word is farther from. The run
/// from `sa` has a hint before it, `d` bytes away; every hint before the run from `sb` is
/// farther away than that, and every one behind it more than `d - 24` bytes. Then the code
/// is not the run from `sb`.
pub proof fn lemma_nearer_number_wins(
    m: Reading,
    code: Seq<char>,
    h: int,
    k: int,
    sa: int,
    ea: int,
    sb: int,
    eb: int,
    d: int,
)
    requires
        is_otp(m, Some(code)),
        looks_like_code(m.body, m.letters, sa, ea),
        looks_like_code(m.body, m.letters, sb, eb),
        hint_at(m.lower, m.word, h, k),
        byte_at(m.body, sa) == hint_span(m.lower, h, k).1 + d,
        0 <= d <= 48,
        forall|g: int, j: int| #[trigger]
            hint_at(m.lower, m.word, g, j) ==> {
                let span = hint_span(m.lower, g, j);
                ||| span.1 + d < byte_at(m.body, sb)
                ||| span.0 >= byte_at(m.body, eb) && span.1 > byte_at(m.body, sb) && span.0 - byte_at(m.body, eb) > d - 24
            },
    ensures
        exists|s: int, e: int, x: int| #[trigger]
            otp_candidate(m, s, e, x) && code == m.body.subrange(s, e) && s != sb,
{
    let from = byte_at(m.body, sa);
    let to = byte_at(m.body, ea);
    assert(hint_strength(hint_span(m.lower, h, k), from, to) == 104 - d);
    assert forall|g: int, j: int| #[trigger] hint_at(m.lower, m.word, g, j) implies hint_strength(
        hint_span(m.lower, g, j),
        from,
        to,
    ) <= 104 by {
    }
    let p = lemma_strongest_hint(m.lower, m.word, from, to, h, k, 104);
    assert(otp_candidate(m, sa, ea, p));
    assert(p >= 104 - d);
    let (s, e, x) = choose|s: int, e: int, x: int|
        {
            &&& #[trigger] otp_candidate(m, s, e, x)
            &&& code == m.body.subrange(s, e)
            &&& forall|s2: int, e2: int, x2: int| #[trigger]
                otp_candidate(m, s2, e2, x2) ==> preferred((s, e, x), (s2, e2, x2))
        };
    assert(preferred((s, e, x), (sa, ea, p)));
    if s == sb {
        lemma_one_run(m.body, sb, e, eb);
        let fb = byte_at(m.body, sb);
        let tb = byte_at(m.body, eb);
        let (g, j) = choose|g: int, j: int| #[trigger]
            hint_at(m.lower, m.word, g, j) && hint_strength(hint_span(m.lower, g, j), fb, tb) == x;
        lemma_offset_order(m.body, sb, eb);
        assert(hint_strength(hint_span(m.lower, g, j), fb, tb) < 104 - d);
    }
}

/// Between numbers that are as near to a hint, six digits are preferred, then five, and of
/// equal lengths the one that comes first in the message.
pub proof fn lemma_usual_length_wins(m: Reading, code: Seq<char>, s: int, e: int, x: int)
    requires
        is_otp(m, Some(code)),
        otp_candidate(m, s, e, x),
        forall|s2: int, e2: int, x2: int| #[trigger] otp_candidate(m, s2, e2, x2) ==> x2 == x,
    ensures
        e - s == 6 ==> code.len() == 6,
        e - s == 5 ==> code.len() == 5 || code.len() == 6,
        code.len() == e - s ==> exists|start: int|
            #[trigger] text::occurs_at(m.body, code, start) && start <= s,
{
    let (s1, e1, x1) = choose|s1: int, e1: int, x1: int|
        {
            &&& #[trigger] otp_candidate(m, s1, e1, x1)
            &&& code == m.body.subrange(s1, e1)
            &&& forall|s2: int, e2: int, x2: int| #[trigger]
                otp_candidate(m, s2, e2, x2) ==> preferred((s1, e1, x1), (s2, e2, x2))
        };
    assert(preferred((s1, e1, x1), (s, e, x)));
    assert(text::occurs_at(m.body, code, s1));
}

/// A letter is an ASCII letter, or what Unicode calls alphabetic beyond ASCII; digits,
/// signs and spaces are none.
pub proof fn lemma_what_a_letter_is(s: Seq<char>, i: int)
    requires
        0 <= i < s.len(),
    ensures
        letters_of(s).len() == s.len(),
        'a' <= s[i] <= 'z' || 'A' <= s[i] <= 'Z' ==> letters_of(s)[i],
        s[i] <= '\u{7f}' && !('a' <= s[i] <= 'z') && !('A' <= s[i] <= 'Z') ==> !letters_of(s)[i],
        s[i] > '\u{7f}' ==> letters_of(s)[i] == text::alphabetic(s[i]),
{
}

/// What is read of a message through the front door: its own letters, its own text in small
/// letters, and the words of that. A hint word, a space and digits give the digits, for every
/// word that is the same in small letters and for a space that is no part of a word.
pub proof fn lemma_message_with_a_hint_word(body: &str, r: Option<String>, w: Seq<char>, digits: Seq<char>)
    requires
        call_ensures(extract_otp, (body,), r),
        w == "code"@ || w == "otp"@ || w == "pin"@ || w == "password"@ || w == "verification"@
            || w == "verify"@ || w == "one-time"@ || w == "kod"@ || w == "kodi"@ || w ==
            "kodingiz"@ || w == "parol"@ || w == "tasdiq"@ || w == "bir martalik"@ || w ==
            "код"@ || w == "коды"@ || w == "пароль"@ || w == "подтверж"@ || w == "одноразов"@,
        4 <= digits.len() <= 8,
        forall|i: int| 0 <= i < digits.len() ==> '0' <= #[trigger] digits[i] <= '9',
        body@ == w + seq![' '] + digits,
        text::lowercased(body@) == body@,
        !text::alphanumeric(' '),
    ensures
        r is Some && r->0@ == digits,
{
    let m = Reading {
        body: body@,
        letters: letters_of(body@),
        lower: text::lowercased(body@),
        word: text::lowercased(body@).map_values(|c: char| text::alphanumeric(c)),
    };
    assert(body@[w.len() as int] == ' ');
    lemma_every_hint_word_counts(m, text::maybe(r), w, digits);
}

/// The pieces of a stream that is cut up and sent piece by piece, in any order, come out as
/// the stream, with the last of them: for up to 2048 pieces, each sent once with its number
/// and the number of all.
pub proof fn lemma_pieces_in_any_order(calls: Seq<Chunk>, parts: Seq<Seq<u8>>, j: int)
    requires
        0 < parts.len() <= 2048,
        calls.len() == parts.len(),
        forall|i: int|
            0 <= i < calls.len() ==> (#[trigger] calls[i]).total == parts.len() && calls[i].idx
                < parts.len() && calls[i].data == parts[calls[i].idx as int],
        forall|i: int, k: int|
            0 <= i < k < calls.len() ==> (#[trigger] calls[i]).idx != (#[trigger] calls[k]).idx,
        forall|n: int|
            #![trigger parts[n]]
            0 <= n < parts.len() ==> exists|i: int|
                0 <= i < calls.len() && (#[trigger] calls[i]).idx == n,
        0 <= j < calls.len(),
    ensures
        j < calls.len() - 1 ==> returned(calls, j) is None,
        j == calls.len() - 1 ==> returned(calls, j) == Some(parts.flatten()),
        slots_at(calls, calls.len() as int).len() == 0,
{
    let last = calls.len() - 1;
    assert forall|i: int| #[trigger] taken_in(calls, i) implies calls[i].total == parts.len()
        && calls[i].data == parts[calls[i].idx as int] by {
        assert(calls[i].total == parts.len());
    }
    assert forall|i: int, k: int|
        #![trigger taken_in(calls, i), taken_in(calls, k)]
        taken_in(calls, i) && taken_in(calls, k) && i != k implies calls[i].idx != calls[k].idx by {
        if i < k {
            assert(calls[i].idx != calls[k].idx);
        } else {
            assert(calls[k].idx != calls[i].idx);
        }
    }
    assert forall|n: int| 0 <= n < parts.len() implies #[trigger] arrived(
        calls,
        calls.len() as int,
        n,
    ) by {
        assert(parts[n] == parts[n]);
        let i = choose|i: int| 0 <= i < calls.len() && (#[trigger] calls[i]).idx == n;
        assert(taken_in(calls, i));
    }
    assert(delivers(calls, parts));
    assert(calls[last].total == parts.len());
    assert(taken_in(calls, last));
    lemma_stream_comes_out(calls, parts, last);
    assert(returned(calls, j) == (if j == last {
        Some(whole(parts))
    } else {
        None
    }));
    lemma_whole_is_all(parts);
}

/// The pieces of a stream, one after the other, are the stream.
pub proof fn lemma_whole_is_all(parts: Seq<Seq<u8>>)
    ensures
        whole(parts) == parts.flatten(),
    decreases parts.len(),
{
    parts.lemma_flatten_and_flatten_alt_are_equivalent();
    if parts.len() > 0 {
        parts.drop_last().lemma_flatten_and_flatten_alt_are_equivalent();
        lemma_whole_is_all(parts.drop_last());
    }
}

/// A chunk that makes no sense is dropped: one of no chunks or of more than 2048, or one
/// beyond the number of chunks. It disturbs nothing that came before.
pub proof fn lemma_senseless_chunk_is_dropped(slots: Seq<Option<Seq<u8>>>, c: Chunk)
    requires
        c.total == 0 || c.total > 2048 || c.idx >= c.total,
    ensures
        add_step(slots, c) == (slots, None::<Seq<u8>>),
{
}

/// A chunk of another stream starts over: nothing of the stream before it comes out with it.
pub proof fn lemma_new_stream_starts_over(slots: Seq<Option<Seq<u8>>>, c: Chunk)
    requires
        0 < c.total <= 2048,
        c.idx < c.total,
        slots.len() != c.total,
    ensures
        c.total == 1 ==> add_step(slots, c) == (Seq::<Option<Seq<u8>>>::empty(), Some(c.data)),
        c.total > 1 ==> {
            let (after, r) = add_step(slots, c);
            &&& r is None
            &&& after.len() == c.total
            &&& forall|i: int|
                0 <= i < after.len() ==> #[trigger] after[i] == if i == c.idx {
                    Some(c.data)
                } else {
                    None
                }
        },
{
    let after = slots_after(slots, c.total, c.idx, c.data);
    if c.total == 1 {
        assert(after[0] == Some(c.data));
        assert(is_complete(after));
        assert(after.drop_last() =~= Seq::<Option<Seq<u8>>>::empty());
        assert(joined(after.drop_last()) =~= Seq::<u8>::empty());
        assert(joined(after) =~= c.data);
    } else {
        let other: int = if c.idx == 0 {
            1
        } else {
            0
        };
        assert(after[other] is None);
    }
}

/// A frame that is put together as the phone does it, two bytes each for the number of chunks
/// and the place, the high byte first, and then the chunk, is read as what it was made of.
pub proof fn lemma_frame_is_read_back(
    plain: &[u8],
    r: Option<(u16, u16, Vec<u8>)>,
    total: u16,
    idx: u16,
    data: Seq<u8>,
)
    requires
        call_ensures(parse_chunk, (plain,), r),
        plain@ == seq![
            (total / 256) as u8,
            (total % 256) as u8,
            (idx / 256) as u8,
            (idx % 256) as u8,
        ] + data,
    ensures
        r is Some,
        (r->0).0 == total,
        (r->0).1 == idx,
        (r->0).2@ == data,
{
    assert(plain@.skip(4) =~= data);
}

/// The message that is announced is one that was received and not read, and no other such
/// message is newer.
pub proof fn lemma_newest_unread_is_announced(messages: &Vec<SmsMessage>, r: Option<usize>, j: int)
    requires
        call_ensures(newest_unread, (messages,), r),
        0 <= j < messages@.len(),
        messages@[j].kind == 1 && messages@[j].read == 0,
    ensures
        r is Some && r->0 < messages@.len(),
        messages@[r->0 as int].kind == 1 && messages@[r->0 as int].read == 0,
        messages@[r->0 as int].date >= messages@[j].date,
        messages@[r->0 as int].date == messages@[j].date ==> j <= r->0,
{
    assert(is_unread(messages@[j]));
}

} // verus!
