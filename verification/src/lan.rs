//! Reaching a peer over the local network.

use vstd::prelude::*;

verus! {

/// An address on the local network.
#[derive(Debug, Clone, Copy, PartialEq, Eq)]
pub enum HostAddr {
    V4([u8; 4]),
    V6([u8; 16]),
}

/// Where a peer can be reached: the port it listens on, and the addresses it
/// announces, in the order of the announcement.
pub struct LanCandidate {
    pub addresses: Vec<HostAddr>,
    pub port: u16,
}

/// The address that is tried: the first of the fourth version of the protocol,
/// and without one the first of all.
pub open spec fn preferred(addresses: Seq<HostAddr>) -> Option<HostAddr> {
    let v4 = first_v4(addresses);
    if v4 < addresses.len() {
        Some(addresses[v4])
    } else if addresses.len() > 0 {
        Some(addresses[0])
    } else {
        None
    }
}

/// The place of the first address of the fourth version, or the number of
/// addresses when there is none.
pub open spec fn first_v4(addresses: Seq<HostAddr>) -> int
    decreases addresses.len(),
{
    if addresses.len() == 0 || addresses[0] is V4 {
        0
    } else {
        1 + first_v4(addresses.drop_first())
    }
}

/// Picks the address that is tried.
pub fn preferred_address(addresses: &Vec<HostAddr>) -> (r: Option<HostAddr>)
    ensures
        r == preferred(addresses@),
{
    let mut i: usize = 0;
    assert(addresses@.skip(0) =~= addresses@);
    while i < addresses.len()
        invariant
            i <= addresses@.len(),
            first_v4(addresses@) == i + first_v4(addresses@.skip(i as int)),
        decreases addresses.len() - i,
    {
        assert(addresses@.skip(i as int).drop_first() =~= addresses@.skip(i + 1));
        match addresses[i] {
            HostAddr::V4(_) => return Some(addresses[i]),
            HostAddr::V6(_) => {},
        }
        i += 1;
    }
    if addresses.len() > 0 {
        Some(addresses[0])
    } else {
        None
    }
}

/// A peer that announces an address of the fourth version is never tried at
/// another one.
pub proof fn lemma_v4_is_preferred(addresses: Seq<HostAddr>, i: int)
    requires
        0 <= i < addresses.len(),
        addresses[i] is V4,
    ensures
        preferred(addresses) is Some,
        preferred(addresses)->0 is V4,
        first_v4(addresses) <= i,
    decreases addresses.len(),
{
    if !(addresses[0] is V4) {
        assert(addresses.drop_first()[i - 1] == addresses[i]);
        lemma_v4_is_preferred(addresses.drop_first(), i - 1);
        let n = first_v4(addresses.drop_first());
        lemma_first_v4(addresses.drop_first());
        assert(addresses.drop_first()[n] == addresses[n + 1]);
    }
}

/// What the place of the first address of the fourth version says.
proof fn lemma_first_v4(addresses: Seq<HostAddr>)
    ensures
        0 <= first_v4(addresses) <= addresses.len(),
        first_v4(addresses) < addresses.len() ==> addresses[first_v4(addresses)] is V4,
    decreases addresses.len(),
{
    if addresses.len() > 0 && !(addresses[0] is V4) {
        lemma_first_v4(addresses.drop_first());
    }
}

/// The address that is tried is the first of the fourth version, or the first of all where
/// there is none of it.
pub proof fn lemma_which_address_is_tried(addresses: &Vec<HostAddr>, r: Option<HostAddr>, i: int)
    requires
        call_ensures(preferred_address, (addresses,), r),
    ensures
        r is None <==> addresses@.len() == 0,
        0 <= i < addresses@.len() && addresses@[i] is V4 && (forall|j: int|
            0 <= j < i ==> (#[trigger] addresses@[j]) is V6) ==> r == Some(addresses@[i]),
        addresses@.len() > 0 && (forall|j: int|
            0 <= j < addresses@.len() ==> (#[trigger] addresses@[j]) is V6) ==> r == Some(
            addresses@[0],
        ),
{
    let a = addresses@;
    lemma_first_v4(a);
    if 0 <= i < a.len() && a[i] is V4 && (forall|j: int| 0 <= j < i ==> (#[trigger] a[j]) is V6) {
        lemma_v4_is_preferred(a, i);
        let n = first_v4(a);
        if n < i {
            assert(a[n] is V6);
        }
    }
}

} // verus!
