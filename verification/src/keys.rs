//! The public keys by which trusted peers are told apart.

use vstd::prelude::*;

use crate::codec;
use crate::codec::hex_decode;

verus! {

/// Whether two keys are the same.
pub fn same_key(a: &[u8; 32], b: &[u8; 32]) -> (r: bool)
    ensures
        r == (a@ == b@),
{
    let mut i: usize = 0;
    while i < 32
        invariant
            i <= 32,
            forall|j: int| 0 <= j < i ==> a@[j] == b@[j],
        decreases 32 - i,
    {
        if a[i] != b[i] {
            return false;
        }
        i += 1;
    }
    assert(a@ =~= b@);
    true
}

/// What an optional key says.
pub open spec fn key_view(k: Option<[u8; 32]>) -> Option<Seq<u8>> {
    match k {
        Some(b) => Some(b@),
        None => None,
    }
}

/// What a list of keys says.
pub open spec fn keys_view(v: Seq<[u8; 32]>) -> Seq<Seq<u8>> {
    v.map_values(|k: [u8; 32]| k@)
}

/// The place of `key` in a list of keys.
pub fn position_of(v: &Vec<[u8; 32]>, key: &[u8; 32]) -> (r: Option<usize>)
    ensures
        r is Some <==> keys_view(v@).contains(key@),
        r is Some ==> r->0 < v@.len() && v@[r->0 as int]@ == key@,
{
    let mut i: usize = 0;
    while i < v.len()
        invariant
            i <= v@.len(),
            forall|j: int| 0 <= j < i ==> (#[trigger] v@[j])@ != key@,
        decreases v.len() - i,
    {
        if same_key(&v[i], key) {
            assert(keys_view(v@)[i as int] == key@);
            return Some(i);
        }
        i += 1;
    }
    assert(!keys_view(v@).contains(key@)) by {
        assert forall|j: int| 0 <= j < v@.len() implies #[trigger] keys_view(v@)[j] != key@ by {
            assert(v@[j]@ != key@);
        }
    }
    None
}

/// The 32 bytes of `bytes` from position `from` on.
pub fn key_at(bytes: &[u8], from: usize) -> (r: [u8; 32])
    requires
        from + 32 <= bytes@.len(),
    ensures
        r@ == bytes@.subrange(from as int, from + 32),
{
    let mut r: [u8; 32] = [0u8; 32];
    let len: usize = bytes.len();
    let mut i: usize = 0;
    while i < 32
        invariant
            i <= 32,
            from + 32 <= len == bytes@.len(),
            forall|j: int| 0 <= j < i ==> r@[j] == bytes@[from + j],
        decreases 32 - i,
    {
        r[i] = bytes[from + i];
        i += 1;
    }
    assert(r@ =~= bytes@.subrange(from as int, from + 32));
    r
}

/// The key that `hex` writes, when it writes 32 bytes.
pub open spec fn key_in(hex: Seq<char>) -> Option<Seq<u8>> {
    if codec::is_hex_text(hex) && hex.len() == 64 {
        Some(codec::hex_bytes(hex))
    } else {
        None
    }
}

/// Reads a key that is written in hexadecimal.
pub fn parse_key(hex: &str) -> (r: Option<[u8; 32]>)
    ensures
        key_view(r) == key_in(hex@),
{
    match hex_decode(hex) {
        Ok(bytes) => {
            if bytes.len() == 32 {
                let key = key_at(bytes.as_slice(), 0);
                assert(key@ =~= bytes@);
                Some(key)
            } else {
                None
            }
        },
        Err(_) => None,
    }
}

/// A key is read back from its hexadecimal text, and nothing that is shorter or longer than a
/// key is read as one.
pub proof fn lemma_key_is_read_back(hex: &str, r: Option<[u8; 32]>, key: [u8; 32])
    requires
        call_ensures(parse_key, (hex,), r),
    ensures
        hex@ == codec::hex_text(key@) ==> r is Some && r->0@ == key@,
        hex@.len() != 64 ==> r is None,
        r is Some ==> codec::is_hex_text(hex@) && r->0@ == codec::hex_bytes(hex@),
{
    codec::lemma_hex_round_trip(key@);
}

/// Two keys are the same when all their bytes are, and a key is found where it stands.
pub proof fn lemma_keys_are_told_apart(
    a: &[u8; 32],
    b: &[u8; 32],
    same: bool,
    v: &Vec<[u8; 32]>,
    at: Option<usize>,
    i: int,
)
    requires
        call_ensures(same_key, (a, b), same),
        call_ensures(position_of, (v, a), at),
    ensures
        same <==> a@ == b@,
        at is Some ==> at->0 < v@.len() && v@[at->0 as int]@ == a@,
        0 <= i < v@.len() && v@[i]@ == a@ ==> at is Some,
{
    if 0 <= i < v@.len() && v@[i]@ == a@ {
        assert(keys_view(v@)[i] == a@);
    }
}

} // verus!
