//! Names and counters in a credential vault.
//!
//! A generic credential is a name and a blob and nothing more, so the naming
//! scheme is the schema. One of its rules carries weight: a peer's record and
//! the counters that hang off it share a prefix, and telling them apart is all
//! that keeps a counter from being listed as a peer.

use vstd::prelude::*;

use crate::codec;
use crate::codec::{hex_decode, hex_encode};
use crate::keys::key_at;
use crate::storage::{StorageError, StorageResult};
use crate::text;
use crate::text::{chars_of, decimal_text, strip_prefix};

verus! {

/// The name of this device's identity.
pub const IDENTITY_TARGET: &'static str = "Vortex/identity";

/// What the names of all credentials of peers begin with.
pub const PEER_PREFIX: &'static str = "Vortex/peer/";

/// The reconnect counter of a peer.
pub const SUB_COUNTER: &'static str = "/counter";

/// The last nonce sent to a peer with an audio request.
pub const SUB_AUDIO_OUT: &'static str = "/audio-out-nonce";

/// The highest nonce taken from a peer with an audio request.
pub const SUB_AUDIO_IN: &'static str = "/audio-in-nonce";

/// The Bluetooth address that a peer is bonded under.
pub const SUB_BONDED: &'static str = "/bonded-addr";

/// The name of the record of the peer with the key `key`.
pub open spec fn peer_name(key: Seq<u8>) -> Seq<char> {
    PEER_PREFIX@ + codec::hex_text(key)
}

/// The key that a name belongs to, when it is the name of a peer's record.
pub open spec fn named_peer(target: Seq<char>) -> Option<Seq<u8>> {
    let rest = target.skip(PEER_PREFIX@.len() as int);
    if text::has_prefix(target, PEER_PREFIX@) && !rest.contains('/') && codec::is_hex_text(rest)
        && rest.len() == 64 {
        Some(codec::hex_bytes(rest))
    } else {
        None
    }
}

/// The eight bytes of `v`, the highest first.
pub open spec fn be_bytes(v: u64) -> Seq<u8> {
    seq![
        (v as int / 0x100_0000_0000_0000) as u8,
        (v as int / 0x1_0000_0000_0000 % 256) as u8,
        (v as int / 0x100_0000_0000 % 256) as u8,
        (v as int / 0x1_0000_0000 % 256) as u8,
        (v as int / 0x100_0000 % 256) as u8,
        (v as int / 0x1_0000 % 256) as u8,
        (v as int / 0x100 % 256) as u8,
        (v as int % 256) as u8,
    ]
}

/// The number that eight bytes write, the highest first.
pub open spec fn be_value(b: Seq<u8>) -> int {
    b[0] * 0x100_0000_0000_0000 + b[1] * 0x1_0000_0000_0000 + b[2] * 0x100_0000_0000 + b[3]
        * 0x1_0000_0000 + b[4] * 0x100_0000 + b[5] * 0x1_0000 + b[6] * 0x100 + b[7]
}

/// The name of the record of a peer.
pub fn peer_target(peer_static_pub: &[u8; 32]) -> (r: String)
    ensures
        r@ == peer_name(peer_static_pub@),
{
    let mut r = PEER_PREFIX.to_string();
    let hex = hex_encode(peer_static_pub);
    r.append(hex.as_str());
    r
}

/// Whether `c` stands in `v`.
fn holds_char(v: &Vec<char>, c: char) -> (r: bool)
    ensures
        r == v@.contains(c),
{
    let mut i: usize = 0;
    while i < v.len()
        invariant
            i <= v.len(),
            forall|j: int| 0 <= j < i ==> v@[j] != c,
        decreases v.len() - i,
    {
        if v[i] == c {
            assert(v@[i as int] == c);
            return true;
        }
        i += 1;
    }
    false
}

/// The key that a name belongs to. `None` for a name that is not that of a
/// peer's record, the counters and nonces below one included.
pub fn peer_from_target(target: &str) -> (r: Option<[u8; 32]>)
    ensures
        match named_peer(target@) {
            Some(key) => r is Some && r->0@ == key,
            None => r is None,
        },
{
    let rest = match strip_prefix(target, PEER_PREFIX) {
        Some(rest) => rest,
        None => return None,
    };
    let chars = chars_of(rest.as_str());
    if holds_char(&chars, '/') {
        return None;
    }
    match hex_decode(rest.as_str()) {
        Ok(bytes) => {
            if bytes.len() == 32 {
                let key = key_at(bytes.as_slice(), 0);
                assert(key@ =~= bytes@);
                Some(key)
            } else {
                None
            }
        },
        Err(_) => None,
    }
}

/// Eight bytes and the number that they write determine each other.
pub proof fn lemma_be_round_trip(v: u64)
    ensures
        be_value(be_bytes(v)) == v,
        be_bytes(v).len() == 8,
{
    let n = v as int;
    let n1 = n / 256;
    let n2 = n1 / 256;
    let n3 = n2 / 256;
    let n4 = n3 / 256;
    let n5 = n4 / 256;
    let n6 = n5 / 256;
    let n7 = n6 / 256;
    assert(n / 0x100 == n1);
    assert(n / 0x1_0000 == n2);
    assert(n / 0x100_0000 == n3);
    assert(n / 0x1_0000_0000 == n4);
    assert(n / 0x100_0000_0000 == n5);
    assert(n / 0x1_0000_0000_0000 == n6);
    assert(n / 0x100_0000_0000_0000 == n7);
    assert(n7 < 256);
}

/// A counter as it is stored.
pub fn encode_u64(v: u64) -> (r: Vec<u8>)
    ensures
        r@ == be_bytes(v),
{
    let r = vec![
        (v / 0x100_0000_0000_0000) as u8,
        (v / 0x1_0000_0000_0000 % 256) as u8,
        (v / 0x100_0000_0000 % 256) as u8,
        (v / 0x1_0000_0000 % 256) as u8,
        (v / 0x100_0000 % 256) as u8,
        (v / 0x1_0000 % 256) as u8,
        (v / 0x100 % 256) as u8,
        (v % 256) as u8,
    ];
    assert(r@ =~= be_bytes(v));
    r
}

/// The complaint about a counter that does not have eight bytes.
pub open spec fn bad_counter(len: nat) -> StorageError<Seq<char>> {
    StorageError::Backend("counter blob is "@ + text::decimal(len) + " bytes, want 8"@)
}

/// What a stored counter reads as.
pub open spec fn counter_in(bytes: Seq<u8>) -> Result<u64, StorageError<Seq<char>>> {
    if bytes.len() == 8 {
        Ok(be_value(bytes) as u64)
    } else {
        Err(bad_counter(bytes.len()))
    }
}

/// The number that the eight bytes from position `from` on write.
pub(crate) fn number_at(bytes: &[u8], from: usize) -> (r: u64)
    requires
        from + 8 <= bytes@.len(),
    ensures
        r == be_value(bytes@.subrange(from as int, from + 8)),
{
    bytes[from] as u64 * 0x100_0000_0000_0000 + bytes[from + 1] as u64 * 0x1_0000_0000_0000
        + bytes[from + 2] as u64 * 0x100_0000_0000 + bytes[from + 3] as u64 * 0x1_0000_0000 + bytes[from
        + 4] as u64 * 0x100_0000 + bytes[from + 5] as u64 * 0x1_0000 + bytes[from + 6] as u64 * 0x100
        + bytes[from + 7] as u64
}

/// Reads a counter. A blob of the wrong size is an error and not a zero: the
/// counters defend against replay, and starting one again at zero would accept
/// what was accepted before.
pub fn decode_u64(bytes: &[u8]) -> (r: StorageResult<u64>)
    ensures
        super::outcome(r) == counter_in(bytes@),
{
    if bytes.len() != 8 {
        let mut m = "counter blob is ".to_string();
        let n = decimal_text(bytes.len() as u64);
        m.append(n.as_str());
        m.append(" bytes, want 8");
        return Err(StorageError::Backend(m));
    }
    assert(bytes@.subrange(0, 8) =~= bytes@);
    Ok(number_at(bytes, 0))
}

/// A counter reads back as it was stored.
pub proof fn lemma_counter_round_trip(v: u64)
    ensures
        counter_in(be_bytes(v)) == Ok::<u64, StorageError<Seq<char>>>(v),
{
    lemma_be_round_trip(v);
}

/// The name of a peer's record leads back to the peer.
pub proof fn lemma_peer_name_round_trip(key: Seq<u8>)
    requires
        key.len() == 32,
    ensures
        named_peer(peer_name(key)) == Some(key),
{
    let t = peer_name(key);
    let n = PEER_PREFIX@.len() as int;
    assert(t.subrange(0, n) =~= PEER_PREFIX@);
    assert(t.skip(n) =~= codec::hex_text(key));
    codec::lemma_hex_round_trip(key);
    assert(!t.skip(n).contains('/')) by {
        assert forall|i: int| 0 <= i < t.skip(n).len() implies #[trigger] t.skip(n)[i] != '/' by {
            assert(codec::is_hex_char(codec::hex_text(key)[i]));
        }
    }
}

/// No name below a peer's record is the name of a peer's record.
pub proof fn lemma_children_are_no_peers(key: Seq<u8>, sub: Seq<char>)
    requires
        sub.contains('/'),
    ensures
        named_peer(peer_name(key) + sub) is None,
{
    let t = peer_name(key) + sub;
    let n = PEER_PREFIX@.len() as int;
    let i = choose|i: int| 0 <= i < sub.len() && sub[i] == '/';
    assert(t.skip(n)[codec::hex_text(key).len() + i] == '/');
}

/// What the credentials are called, and that the names below a peer's record differ from it and
/// from each other.
pub proof fn lemma_names_of_the_credentials(key: Seq<u8>)
    ensures
        IDENTITY_TARGET@ == "Vortex/identity"@,
        peer_name(key) == "Vortex/peer/"@ + codec::hex_text(key),
        SUB_COUNTER@ == "/counter"@,
        SUB_AUDIO_OUT@ == "/audio-out-nonce"@,
        SUB_AUDIO_IN@ == "/audio-in-nonce"@,
        SUB_BONDED@ == "/bonded-addr"@,
{
}

/// A counter is stored in eight bytes, the highest first: one more in the number is one more in
/// the last byte, and a full byte carries over into the one before.
pub proof fn lemma_highest_byte_first(v: u64, r: Vec<u8>)
    requires
        call_ensures(encode_u64, (v,), r),
    ensures
        r@.len() == 8,
        r@[7] == v % 256,
        r@[6] == v / 256 % 256,
        r@[0] == v / 0x100_0000_0000_0000,
        v < 256 ==> (forall|i: int| 0 <= i < 7 ==> #[trigger] r@[i] == 0),
{
}

/// What is stored is read back, and anything that has not eight bytes is an error and no number.
pub proof fn lemma_counter_is_read_back(v: u64, b: Vec<u8>, bytes: &[u8], r: StorageResult<u64>)
    requires
        call_ensures(encode_u64, (v,), b),
        call_ensures(decode_u64, (bytes,), r),
    ensures
        bytes@ == b@ ==> r is Ok && r->Ok_0 == v,
        bytes@.len() != 8 ==> r is Err,
{
    lemma_be_round_trip(v);
}

/// Whatever name leads to a peer is the name of its record, but for the capitals of its digits.
pub proof fn lemma_only_records_are_peers(target: &str, r: Option<[u8; 32]>)
    requires
        call_ensures(peer_from_target, (target,), r),
    ensures
        r is Some ==> target@.len() == "Vortex/peer/"@.len() + 64 && target@.take(
            "Vortex/peer/"@.len() as int,
        ) == "Vortex/peer/"@,
        r is Some ==> r->0@ == codec::hex_bytes(target@.skip("Vortex/peer/"@.len() as int)),
{
    if r is Some {
        let n = "Vortex/peer/"@.len() as int;
        assert(target@.take(n) =~= target@.subrange(0, n));
    }
}

/// What is said of a counter that has not eight bytes.
pub proof fn lemma_bad_counter_in_words(bytes: &[u8], r: StorageResult<u64>)
    requires
        call_ensures(decode_u64, (bytes,), r),
        bytes@.len() != 8,
    ensures
        r is Err && (r->Err_0)@ == StorageError::Backend(
            "counter blob is "@ + text::decimal(bytes@.len()) + " bytes, want 8"@,
        ),
{
}

} // verus!
