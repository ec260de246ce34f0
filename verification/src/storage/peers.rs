//! Trusted peers: what is kept of one, and what a store of them does.
//!
//! A record is the peer's public key, the secret shared with it, the time of
//! pairing, and, when one was exchanged, the peer's name in UTF-8 behind them.

use vstd::prelude::*;
use vstd::utf8;

use crate::codec::utf8_text;
use crate::keys::key_at;
use crate::storage;
use crate::storage::credential_names;
use crate::storage::credential_names::{encode_u64, number_at};
use crate::storage::{StorageError, StorageResult};
use crate::text;
use crate::text::{chars_of, decimal_text, text_of};

verus! {

/// The length of a record without a name.
pub const RECORD_LEN: usize = 72;

/// The number of characters that a peer's name is cut to.
pub const MAX_NAME_CHARS: usize = 64;

/// A peer that this device was paired with.
#[derive(Debug, Clone, PartialEq, Eq)]
pub struct TrustedPeer {
    pub peer_static_pub: [u8; 32],
    pub prs: [u8; 32],
    /// Seconds since the epoch.
    pub paired_at: u64,
    /// The name that the device gave itself during pairing.
    pub peer_name: Option<String>,
}

/// What a trusted peer says.
#[verifier::ext_equal]
pub struct TrustedPeerView {
    pub peer_static_pub: Seq<u8>,
    pub prs: Seq<u8>,
    pub paired_at: u64,
    pub peer_name: Option<Seq<char>>,
}

impl View for TrustedPeer {
    type V = TrustedPeerView;

    open spec fn view(&self) -> TrustedPeerView {
        TrustedPeerView {
            peer_static_pub: self.peer_static_pub@,
            prs: self.prs@,
            paired_at: self.paired_at,
            peer_name: text::maybe(self.peer_name),
        }
    }
}

/// A control character, which must not reach the screen.
pub open spec fn is_control(c: char) -> bool {
    c <= '\u{1f}' || '\u{7f}' <= c <= '\u{9f}'
}

/// `s` without its control characters.
pub open spec fn printable(s: Seq<char>) -> Seq<char>
    decreases s.len(),
{
    if s.len() == 0 {
        s
    } else if is_control(s.last()) {
        printable(s.drop_last())
    } else {
        printable(s.drop_last()).push(s.last())
    }
}

/// A name fit for the screen: no control characters, and no more than
/// `MAX_NAME_CHARS` others.
pub open spec fn sanitized(s: Seq<char>) -> Seq<char> {
    let p = printable(s);
    if p.len() <= MAX_NAME_CHARS {
        p
    } else {
        p.take(MAX_NAME_CHARS as int)
    }
}

/// Makes a name fit for the screen.
pub fn sanitize_peer_name(s: &str) -> (r: String)
    ensures
        r@ == sanitized(s@),
{
    let chars = chars_of(s);
    let mut out: Vec<char> = Vec::new();
    let mut i: usize = 0;
    while i < chars.len()
        invariant
            i <= chars@.len(),
            chars@ == s@,
            out@ == printable(s@.take(i as int)),
        decreases chars.len() - i,
    {
        assert(s@.take(i + 1).drop_last() =~= s@.take(i as int));
        let c = chars[i];
        if !(c <= '\u{1f}' || ('\u{7f}' <= c && c <= '\u{9f}')) {
            out.push(c);
        }
        i += 1;
    }
    assert(s@.take(s@.len() as int) =~= s@);
    if out.len() > MAX_NAME_CHARS {
        out.truncate(MAX_NAME_CHARS);
    }
    text_of(&out)
}

/// The record of a peer.
pub open spec fn record_of(p: TrustedPeerView) -> Seq<u8> {
    p.peer_static_pub + p.prs + credential_names::be_bytes(p.paired_at) + match p.peer_name {
        Some(name) => utf8::encode_utf8(name),
        None => Seq::empty(),
    }
}

/// The name behind a record: none where the bytes are not UTF-8, or where
/// nothing of them is fit for the screen.
pub open spec fn name_in(b: Seq<u8>) -> Option<Seq<char>> {
    if utf8::valid_utf8(b) && sanitized(utf8::decode_utf8(b)).len() > 0 {
        Some(sanitized(utf8::decode_utf8(b)))
    } else {
        None
    }
}

/// The complaint about a record that is too short.
pub open spec fn short_record(len: nat) -> StorageError<Seq<char>> {
    StorageError::Backend(
        "trusted peer record too short: "@ + text::decimal(len) + " (need \u{2265}72)"@,
    )
}

/// What a record reads as.
pub open spec fn peer_in(b: Seq<u8>) -> Result<TrustedPeerView, StorageError<Seq<char>>> {
    if b.len() < RECORD_LEN {
        Err(short_record(b.len()))
    } else {
        Ok(
            TrustedPeerView {
                peer_static_pub: b.subrange(0, 32),
                prs: b.subrange(32, 64),
                paired_at: credential_names::be_value(b.subrange(64, 72)) as u64,
                peer_name: name_in(b.skip(RECORD_LEN as int)),
            },
        )
    }
}

impl TrustedPeer {
    /// The record of this peer: 72 bytes, and its name behind them.
    pub fn encode(&self) -> (r: Vec<u8>)
        ensures
            r@ == record_of(self@),
    {
        let mut out: Vec<u8> = Vec::new();
        out.extend_from_slice(&self.peer_static_pub);
        out.extend_from_slice(&self.prs);
        let at = encode_u64(self.paired_at);
        out.extend_from_slice(at.as_slice());
        match &self.peer_name {
            Some(name) => {
                out.extend_from_slice(name.as_str().as_bytes());
            },
            None => {},
        }
        assert(out@ =~= record_of(self@));
        out
    }

    /// Reads a record.
    pub fn decode(bytes: &[u8]) -> (r: StorageResult<Self>)
        ensures
            storage::outcome_view(r) == peer_in(bytes@),
    {
        if bytes.len() < RECORD_LEN {
            let mut m = "trusted peer record too short: ".to_string();
            let n = decimal_text(bytes.len() as u64);
            m.append(n.as_str());
            m.append(" (need \u{2265}72)");
            return Err(StorageError::Backend(m));
        }
        let peer_static_pub = key_at(bytes, 0);
        let prs = key_at(bytes, 32);
        let paired_at: u64 = number_at(bytes, 64);
        let mut rest: Vec<u8> = Vec::new();
        let len: usize = bytes.len();
        let mut i: usize = RECORD_LEN;
        while i < len
            invariant
                RECORD_LEN <= i <= len == bytes@.len(),
                rest@ == bytes@.subrange(RECORD_LEN as int, i as int),
            decreases len - i,
        {
            rest.push(bytes[i]);
            i += 1;
            assert(rest@ =~= bytes@.subrange(RECORD_LEN as int, i as int));
        }
        assert(rest@ =~= bytes@.skip(RECORD_LEN as int));
        let peer_name = match utf8_text(rest.as_slice()) {
            Some(raw) => {
                let name = sanitize_peer_name(raw.as_str());
                if chars_of(name.as_str()).len() > 0 {
                    Some(name)
                } else {
                    None
                }
            },
            None => None,
        };
        Ok(TrustedPeer { peer_static_pub, prs, paired_at, peer_name })
    }
}

/// A name that is fit for the screen stays as it is.
pub open spec fn is_fit(name: Option<Seq<char>>) -> bool {
    match name {
        Some(n) => n.len() > 0 && sanitized(n) == n,
        None => true,
    }
}

/// A peer reads back as it was written, when its name is fit for the screen.
pub proof fn lemma_record_round_trip(p: TrustedPeerView)
    requires
        p.peer_static_pub.len() == 32,
        p.prs.len() == 32,
        is_fit(p.peer_name),
    ensures
        peer_in(record_of(p)) == Ok::<TrustedPeerView, StorageError<Seq<char>>>(p),
        p.peer_name is None ==> record_of(p).len() == RECORD_LEN,
{
    let b = record_of(p);
    let tail = match p.peer_name {
        Some(name) => utf8::encode_utf8(name),
        None => Seq::empty(),
    };
    credential_names::lemma_be_round_trip(p.paired_at);
    assert(b.subrange(0, 32) =~= p.peer_static_pub);
    assert(b.subrange(32, 64) =~= p.prs);
    assert(b.subrange(64, 72) =~= credential_names::be_bytes(p.paired_at));
    assert(b.skip(72) =~= tail);
    match p.peer_name {
        Some(name) => {
            utf8::encode_utf8_valid_utf8(name);
            utf8::encode_utf8_decode_utf8(name);
        },
        None => {
            assert(utf8::decode_utf8(tail) =~= Seq::<char>::empty());
            assert(sanitized(Seq::<char>::empty()).len() == 0);
        },
    }
}

/// What is read from a record is always fit for the screen.
pub proof fn lemma_names_are_fit(b: Seq<u8>)
    requires
        b.len() >= RECORD_LEN,
    ensures
        peer_in(b) is Ok,
        peer_in(b)->Ok_0.peer_name matches Some(n) ==> 0 < n.len() <= MAX_NAME_CHARS && (forall|i: int|
            0 <= i < n.len() ==> !is_control(#[trigger] n[i])),
{
    let tail = b.skip(RECORD_LEN as int);
    lemma_printable(utf8::decode_utf8(tail));
}

/// No control character is printable.
proof fn lemma_printable(s: Seq<char>)
    ensures
        forall|i: int| 0 <= i < printable(s).len() ==> !is_control(#[trigger] printable(s)[i]),
    decreases s.len(),
{
    if s.len() > 0 {
        lemma_printable(s.drop_last());
        let before = printable(s.drop_last());
        assert forall|i: int| 0 <= i < printable(s).len() implies !is_control(#[trigger] printable(s)[i]) by {
            assert(i < before.len() ==> printable(s)[i] == before[i]);
        }
    }
}

/// What a list of peers says.
pub open spec fn peer_views(v: Seq<TrustedPeer>) -> Seq<TrustedPeerView> {
    v.map_values(|p: TrustedPeer| p@)
}

/// One more than `n`, or `n` where there is none.
pub open spec fn next_of(n: u64) -> u64 {
    if n == u64::MAX {
        n
    } else {
        (n + 1) as u64
    }
}

/// The greater of two numbers.
pub open spec fn greater_of(a: u64, b: u64) -> u64 {
    if a < b {
        b
    } else {
        a
    }
}

/// A store of trusted peers. Besides the peers it keeps, for each of them, three
/// numbers that only grow: the reconnect counter, the nonce of the last audio
/// request to the peer, and the highest nonce that was taken from it. It may keep
/// the Bluetooth address of each as well.
pub trait PeerStore: Sized {
    /// What loading the peer with this key gives.
    spec fn record(&self, key: Seq<u8>) -> Result<TrustedPeerView, StorageError<Seq<char>>>;

    /// What listing the peers gives.
    spec fn peers(&self) -> Result<Seq<TrustedPeerView>, StorageError<Seq<char>>>;

    /// The highest nonce that was taken from the peer with this key.
    spec fn in_nonce(&self, key: Seq<u8>) -> Result<u64, StorageError<Seq<char>>>;

    /// The nonce of the last audio request to the peer with this key.
    spec fn out_nonce(&self, key: Seq<u8>) -> Result<u64, StorageError<Seq<char>>>;

    /// The reconnect counter of the peer with this key.
    spec fn counter(&self, key: Seq<u8>) -> Result<u64, StorageError<Seq<char>>>;

    /// The Bluetooth address that is kept for the peer with this key.
    spec fn bonded(&self, key: Seq<u8>) -> Option<Seq<char>>;

    /// Keeping `nonce` as taken from the peer with this key may turn this store into
    /// `after` and answer `r`.
    spec fn commits(
        &self,
        key: Seq<u8>,
        nonce: u64,
        after: Self,
        r: Result<(), StorageError<Seq<char>>>,
    ) -> bool;

    /// Keeps a peer, in place of what was kept under its key. A peer whose name is
    /// fit for the screen is loaded and listed as it was saved; the records of
    /// others, and all numbers and addresses, stay as they are.
    fn save(&mut self, peer: &TrustedPeer) -> (r: StorageResult<()>)
        ensures
            r is Ok && is_fit(peer@.peer_name) ==> {
                &&& final(self).record(peer@.peer_static_pub) == Ok::<
                    TrustedPeerView,
                    StorageError<Seq<char>>,
                >(peer@)
                &&& final(self).peers() matches Ok(l) ==> l.contains(peer@)
            },
            r is Ok ==> forall|k: Seq<u8>| k.len() == 32 ==> {
                &&& k != peer@.peer_static_pub ==> #[trigger] final(self).record(k) == old(
                    self,
                ).record(k)
                &&& final(self).counter(k) == old(self).counter(k)
                &&& final(self).out_nonce(k) == old(self).out_nonce(k)
                &&& final(self).in_nonce(k) == old(self).in_nonce(k)
                &&& final(self).bonded(k) == old(self).bonded(k)
            },
    ;

    /// The peer with this key.
    fn load(&self, peer_static_pub: &[u8; 32]) -> (r: StorageResult<TrustedPeer>)
        ensures
            storage::outcome_view(r) == self.record(peer_static_pub@),
    ;

    /// Every peer.
    fn list(&self) -> (r: StorageResult<Vec<TrustedPeer>>)
        ensures
            self.peers() == match r {
                Ok(l) => Ok::<Seq<TrustedPeerView>, StorageError<Seq<char>>>(peer_views(l@)),
                Err(e) => Err(e@),
            },
    ;

    /// Forgets a peer and all that hangs off it: no record of it can be loaded, its
    /// numbers start over, and no address is kept for it. The other peers stay as
    /// they are.
    fn forget(&mut self, peer_static_pub: &[u8; 32]) -> (r: StorageResult<()>)
        ensures
            r is Ok ==> {
                &&& final(self).record(peer_static_pub@) == Err::<
                    TrustedPeerView,
                    StorageError<Seq<char>>,
                >(StorageError::NotFound)
                &&& final(self).counter(peer_static_pub@) == Ok::<u64, StorageError<Seq<char>>>(0)
                &&& final(self).out_nonce(peer_static_pub@) == Ok::<u64, StorageError<Seq<char>>>(0)
                &&& final(self).in_nonce(peer_static_pub@) == Ok::<u64, StorageError<Seq<char>>>(0)
                &&& final(self).bonded(peer_static_pub@) is None
            },
            r is Ok ==> forall|k: Seq<u8>| k.len() == 32 && k != peer_static_pub@ ==> {
                &&& #[trigger] final(self).record(k) == old(self).record(k)
                &&& final(self).counter(k) == old(self).counter(k)
                &&& final(self).out_nonce(k) == old(self).out_nonce(k)
                &&& final(self).in_nonce(k) == old(self).in_nonce(k)
                &&& final(self).bonded(k) == old(self).bonded(k)
            },
            r is Ok ==> match (old(self).peers(), final(self).peers()) {
                (Ok(before), Ok(after)) => forall|p: TrustedPeerView| #[trigger]
                    after.contains(p) ==> before.contains(p),
                _ => true,
            },
    ;

    /// The reconnect counter of a peer, zero before the first reconnect.
    fn load_counter(&self, peer_static_pub: &[u8; 32]) -> (r: StorageResult<u64>)
        ensures
            storage::outcome(r) == self.counter(peer_static_pub@),
    ;

    /// Moves the reconnect counter past both its own value and the peer's, and gives
    /// the new one.
    fn bump_counter(&mut self, peer_static_pub: &[u8; 32], peer_seen: u64) -> (r: StorageResult<u64>)
        ensures
            match old(self).counter(peer_static_pub@) {
                Ok(local) => r matches Ok(n) ==> {
                    &&& n == next_of(greater_of(local, peer_seen))
                    &&& final(self).counter(peer_static_pub@) == Ok::<u64, StorageError<Seq<char>>>(n)
                },
                Err(e) => storage::outcome(r) == Err::<u64, StorageError<Seq<char>>>(e),
            },
    ;

    /// The Bluetooth address that the peer is bonded under, once it is. A store that
    /// keeps no addresses gives none.
    fn load_bonded_addr(&self, _peer_static_pub: &[u8; 32]) -> (r: StorageResult<Option<String>>)
        ensures
            r matches Ok(Some(addr)) ==> self.bonded(_peer_static_pub@) == Some(addr@),
        default_ensures
            r == Ok::<Option<String>, StorageError>(None),
    {
        Ok(None)
    }

    /// Keeps the Bluetooth address that the peer is bonded under, where addresses are
    /// kept. Nothing else changes.
    fn save_bonded_addr(&mut self, _peer_static_pub: &[u8; 32], _addr: &str) -> (r: StorageResult<()>)
        ensures
            r is Ok ==> forall|k: Seq<u8>| k.len() == 32 ==> {
                &&& #[trigger] final(self).record(k) == old(self).record(k)
                &&& final(self).counter(k) == old(self).counter(k)
                &&& final(self).out_nonce(k) == old(self).out_nonce(k)
                &&& final(self).in_nonce(k) == old(self).in_nonce(k)
                &&& k != _peer_static_pub@ ==> final(self).bonded(k) == old(self).bonded(k)
            },
        default_ensures
            r == Ok::<(), StorageError>(()),
            *final(self) == *old(self),
    {
        Ok(())
    }

    /// The nonce for the next audio request to the peer: one more than that of the
    /// last, so that the first request carries 1.
    fn next_audio_out_nonce(&mut self, peer_static_pub: &[u8; 32]) -> (r: StorageResult<u64>)
        ensures
            match old(self).out_nonce(peer_static_pub@) {
                Ok(last) => r matches Ok(n) ==> {
                    &&& n == next_of(last)
                    &&& final(self).out_nonce(peer_static_pub@) == Ok::<
                        u64,
                        StorageError<Seq<char>>,
                    >(n)
                },
                Err(e) => storage::outcome(r) == Err::<u64, StorageError<Seq<char>>>(e),
            },
    ;

    /// The highest nonce that was taken from the peer.
    fn load_audio_in_nonce(&self, peer_static_pub: &[u8; 32]) -> (r: StorageResult<u64>)
        ensures
            storage::outcome(r) == self.in_nonce(peer_static_pub@),
    ;

    /// Keeps a nonce that was taken from the peer. A lower one than is kept already
    /// changes nothing.
    fn commit_audio_in_nonce(&mut self, peer_static_pub: &[u8; 32], nonce: u64) -> (r:
        StorageResult<()>)
        ensures
            old(self).commits(peer_static_pub@, nonce, *final(self), storage::outcome(r)),
            r is Ok ==> match old(self).in_nonce(peer_static_pub@) {
                Ok(seen) => final(self).in_nonce(peer_static_pub@) == Ok::<
                    u64,
                    StorageError<Seq<char>>,
                >(greater_of(seen, nonce)),
                Err(_) => false,
            },
    ;

    /// Takes `nonce` when it is higher than every one taken before, and keeps it
    /// then. `false` marks a replay, which must be dropped.
    fn try_accept_audio_in_nonce(&mut self, peer_static_pub: &[u8; 32], nonce: u64) -> (r:
        StorageResult<bool>)
        ensures
            match old(self).in_nonce(peer_static_pub@) {
                Err(e) => storage::outcome(r) == Err::<bool, StorageError<Seq<char>>>(e)
                    && *final(self) == *old(self),
                Ok(seen) => if nonce <= seen {
                    r == Ok::<bool, StorageError>(false) && *final(self) == *old(self)
                } else {
                    exists|c: Result<(), StorageError<Seq<char>>>|
                        {
                            &&& #[trigger] old(self).commits(
                                peer_static_pub@,
                                nonce,
                                *final(self),
                                c,
                            )
                            &&& match c {
                                Ok(_) => r == Ok::<bool, StorageError>(true)
                                    && final(self).in_nonce(peer_static_pub@) == Ok::<
                                    u64,
                                    StorageError<Seq<char>>,
                                >(nonce),
                                Err(e) => storage::outcome(r) == Err::<
                                    bool,
                                    StorageError<Seq<char>>,
                                >(e),
                            }
                        }
                },
            },
    {
        let seen: u64 = match self.load_audio_in_nonce(peer_static_pub) {
            Ok(seen) => seen,
            Err(e) => return Err(e),
        };
        if nonce <= seen {
            return Ok(false);
        }
        match self.commit_audio_in_nonce(peer_static_pub, nonce) {
            Ok(_) => Ok(true),
            Err(e) => Err(e),
        }
    }
}

/// What offering a nonce does to a store, by the contract of
/// `PeerStore::try_accept_audio_in_nonce`.
pub open spec fn offered<S: PeerStore>(
    before: S,
    key: Seq<u8>,
    nonce: u64,
    after: S,
    r: Result<bool, StorageError<Seq<char>>>,
) -> bool {
    match before.in_nonce(key) {
        Err(e) => r == Err::<bool, StorageError<Seq<char>>>(e) && after == before,
        Ok(seen) => if nonce <= seen {
            r == Ok::<bool, StorageError<Seq<char>>>(false) && after == before
        } else {
            exists|c: Result<(), StorageError<Seq<char>>>|
                {
                    &&& #[trigger] before.commits(key, nonce, after, c)
                    &&& match c {
                        Ok(_) => r == Ok::<bool, StorageError<Seq<char>>>(true) && after.in_nonce(key)
                            == Ok::<u64, StorageError<Seq<char>>>(nonce),
                        Err(e) => r == Err::<bool, StorageError<Seq<char>>>(e),
                    }
                }
        },
    }
}

/// A nonce is taken once, in every store: when `nonce` was taken, neither it nor
/// any lower one is taken from that peer afterwards.
pub proof fn lemma_a_nonce_is_taken_once<S: PeerStore>(
    before: S,
    between: S,
    after: S,
    key: Seq<u8>,
    nonce: u64,
    again: u64,
    r: Result<bool, StorageError<Seq<char>>>,
)
    requires
        offered(before, key, nonce, between, Ok(true)),
        again <= nonce,
        offered(between, key, again, after, r),
    ensures
        r == Ok::<bool, StorageError<Seq<char>>>(false),
        after == between,
{
}

/// The numbers only grow: the next one is above both the local one and the
/// peer's, until the numbers run out.
pub proof fn lemma_counters_grow(local: u64, seen: u64)
    ensures
        next_of(greater_of(local, seen)) >= greater_of(local, seen),
        local < u64::MAX && seen < u64::MAX ==> next_of(greater_of(local, seen)) > local && next_of(
            greater_of(local, seen),
        ) > seen,
        local < u64::MAX ==> next_of(local) > local,
{
}

/// The record of a peer: its key, the shared secret, the time in eight bytes with the highest
/// first, and its name.
pub proof fn lemma_layout_of_a_record(p: &TrustedPeer, r: Vec<u8>)
    requires
        call_ensures(TrustedPeer::encode, (p,), r),
    ensures
        r@.len() >= 72,
        r@.subrange(0, 32) == p.peer_static_pub@,
        r@.subrange(32, 64) == p.prs@,
        r@[71] == p.paired_at % 256,
        r@[70] == p.paired_at / 256 % 256,
        r@[64] == p.paired_at / 0x100_0000_0000_0000,
        p.peer_name is None ==> r@.len() == 72,
        p.peer_name is Some ==> r@.skip(72) == utf8::encode_utf8(p.peer_name->0@),
{
    let time = credential_names::be_bytes(p.paired_at);
    assert(r@.subrange(0, 32) =~= p.peer_static_pub@);
    assert(r@.subrange(32, 64) =~= p.prs@);
    assert(r@[71] == time[7] && r@[70] == time[6] && r@[64] == time[0]);
    if p.peer_name is Some {
        assert(r@.skip(72) =~= utf8::encode_utf8(p.peer_name->0@));
    }
}

/// A record is read back from its bytes, and fewer than 72 of them are no record.
pub proof fn lemma_record_is_read_back(
    p: &TrustedPeer,
    b: Vec<u8>,
    bytes: &[u8],
    r: StorageResult<TrustedPeer>,
)
    requires
        call_ensures(TrustedPeer::encode, (p,), b),
        call_ensures(TrustedPeer::decode, (bytes,), r),
        is_fit(p@.peer_name),
    ensures
        bytes@ == b@ ==> r is Ok && (r->Ok_0)@ == p@,
        bytes@.len() < 72 ==> r is Err,
        bytes@.len() >= 72 ==> r is Ok,
{
    lemma_record_round_trip(p@);
}

/// A name keeps its printable characters, in their order, and loses the others; of more than 64
/// the first 64 are kept.
pub proof fn lemma_what_is_kept_of_a_name(s: &str, r: String, c: char, longer: &str, t: String)
    requires
        call_ensures(sanitize_peer_name, (s,), r),
        longer@ == s@.push(c),
        call_ensures(sanitize_peer_name, (longer,), t),
    ensures
        s@.len() == 0 ==> r@.len() == 0,
        r@.len() <= 64,
        c <= '\u{1f}' || '\u{7f}' <= c <= '\u{9f}' ==> t@ == r@,
        !(c <= '\u{1f}' || '\u{7f}' <= c <= '\u{9f}') && r@.len() < 64 ==> t@ == r@.push(c),
        r@.len() == 64 ==> t@ == r@,
{
    assert(longer@.drop_last() =~= s@);
    assert(longer@.last() == c);
    let p = printable(s@);
    if p.len() >= 64 && !is_control(c) {
        assert(p.push(c).take(64) =~= p.take(64));
        assert(p.take(64).len() == 64);
        if p.len() == 64 {
            assert(p.take(64) =~= p);
        }
    }
}

/// The next number lies one above both the own one and the peer's.
pub proof fn lemma_next_number(local: u64, seen: u64)
    requires
        local < u64::MAX && seen < u64::MAX,
    ensures
        local >= seen ==> next_of(greater_of(local, seen)) == local + 1,
        seen >= local ==> next_of(greater_of(local, seen)) == seen + 1,
        next_of(local) == local + 1,
        next_of(u64::MAX) == u64::MAX,
{
}

/// What is said of a record that is too short.
pub proof fn lemma_short_record_in_words(bytes: &[u8], r: StorageResult<TrustedPeer>)
    requires
        call_ensures(TrustedPeer::decode, (bytes,), r),
        bytes@.len() < 72,
    ensures
        r is Err && (r->Err_0)@ == StorageError::Backend(
            "trusted peer record too short: "@ + text::decimal(bytes@.len()) + " (need \u{2265}72)"@,
        ),
{
}

/// Whose record is read back as it was written: that of a peer without a name, and that of one
/// whose name has 1 to 64 characters, none of them a control character.
pub proof fn lemma_names_that_are_kept(n: Seq<char>)
    ensures
        is_fit(None),
        0 < n.len() <= 64 && (forall|i: int|
            0 <= i < n.len() ==> !((#[trigger] n[i]) <= '\u{1f}' || '\u{7f}' <= n[i] <= '\u{9f}'))
            ==> is_fit(Some(n)),
        n.len() == 0 || n.len() > 64 ==> !is_fit(Some(n)),
{
    if 0 < n.len() <= 64 && (forall|i: int|
        0 <= i < n.len() ==> !((#[trigger] n[i]) <= '\u{1f}' || '\u{7f}' <= n[i] <= '\u{9f}')) {
        lemma_printable_stays(n);
    }
}

proof fn lemma_printable_stays(s: Seq<char>)
    requires
        forall|i: int| 0 <= i < s.len() ==> !is_control(#[trigger] s[i]),
    ensures
        printable(s) == s,
    decreases s.len(),
{
    if s.len() > 0 {
        let before = s.drop_last();
        assert forall|i: int| 0 <= i < before.len() implies !is_control(#[trigger] before[i]) by {
            assert(before[i] == s[i]);
        }
        assert(!is_control(s[s.len() - 1]));
        lemma_printable_stays(before);
        assert(before.push(s.last()) =~= s);
    }
}

} // verus!
