//! What differs from one operating system to the next, as far as it can be
//! decided on plain values.

use vstd::prelude::*;

use crate::text;
use crate::text::{chars_of, text_of, trim};

pub mod autostart;
pub mod gatt;
pub mod input;
pub mod notify;
pub mod paths;
pub mod session;
pub mod toast_xml;
pub mod vk_to_evdev;

verus! {

/// A Bluetooth device address, in printed order.
#[derive(Debug, Clone, Copy, PartialEq, Eq, Hash)]
pub struct PeerAddr(pub [u8; 6]);

/// The number that six bytes write, the first byte being the highest.
pub open spec fn addr_value(b: Seq<u8>) -> int {
    b[0] * 0x100_0000_0000 + b[1] * 0x1_0000_0000 + b[2] * 0x100_0000 + b[3] * 0x1_0000 + b[4]
        * 0x100 + b[5]
}

/// A hexadecimal digit in capital letters.
pub open spec fn capital_digit(n: int) -> char {
    if n < 10 {
        (48 + n) as char
    } else {
        (55 + n) as char
    }
}

/// A byte as two hexadecimal digits in capital letters.
pub open spec fn capital_hex(b: u8) -> Seq<char> {
    seq![capital_digit(b as int / 16), capital_digit(b as int % 16)]
}

/// Six bytes in the form `AA:BB:CC:DD:EE:FF`.
pub open spec fn addr_text(b: Seq<u8>) -> Seq<char> {
    capital_hex(b[0]) + seq![':'] + capital_hex(b[1]) + seq![':'] + capital_hex(b[2]) + seq![':']
        + capital_hex(b[3]) + seq![':'] + capital_hex(b[4]) + seq![':'] + capital_hex(b[5])
}

fn capital_digit_of(n: u8) -> (c: char)
    requires
        n < 16,
    ensures
        c == capital_digit(n as int),
{
    if n < 10 {
        (48 + n) as char
    } else {
        (55 + n) as char
    }
}

impl PeerAddr {
    /// The address in the low six bytes of a number, the highest byte first; the
    /// two bytes above them are dropped.
    pub fn from_u48(addr: u64) -> (r: Self)
        ensures
            addr_value((r.0)@) == addr % 0x1_0000_0000_0000,
    {
        let q5: u64 = addr / 0x100;
        let q4: u64 = q5 / 0x100;
        let q3: u64 = q4 / 0x100;
        let q2: u64 = q3 / 0x100;
        let q1: u64 = q2 / 0x100;
        let b0: u8 = (q1 % 0x100) as u8;
        let b1: u8 = (q2 % 0x100) as u8;
        let b2: u8 = (q3 % 0x100) as u8;
        let b3: u8 = (q4 % 0x100) as u8;
        let b4: u8 = (q5 % 0x100) as u8;
        let b5: u8 = (addr % 0x100) as u8;
        proof {
            let v = addr_value(seq![b0, b1, b2, b3, b4, b5]);
            let top = (q1 / 0x100) as int;
            assert(q1 == 0x100 * top + b0);
            assert(q2 == 0x100 * q1 + b1);
            assert(q3 == 0x100 * q2 + b2);
            assert(q4 == 0x100 * q3 + b3);
            assert(q5 == 0x100 * q4 + b4);
            assert(addr == 0x100 * q5 + b5);
            assert(addr == 0x1_0000_0000_0000 * top + v);
            assert(0 <= v < 0x1_0000_0000_0000);
            vstd::arithmetic::div_mod::lemma_fundamental_div_mod_converse(
                addr as int,
                0x1_0000_0000_0000,
                top,
                v,
            );
        }
        let r = PeerAddr([b0, b1, b2, b3, b4, b5]);
        assert((r.0)@ =~= seq![b0, b1, b2, b3, b4, b5]);
        r
    }

    /// The number whose low six bytes are the address.
    pub fn to_u48(self) -> (r: u64)
        ensures
            r == addr_value((self.0)@),
            r < 0x1_0000_0000_0000,
    {
        let a: [u8; 6] = self.0;
        a[0] as u64 * 0x100_0000_0000 + a[1] as u64 * 0x1_0000_0000 + a[2] as u64 * 0x100_0000
            + a[3] as u64 * 0x1_0000 + a[4] as u64 * 0x100 + a[5] as u64
    }

    /// The address in the form `AA:BB:CC:DD:EE:FF`.
    pub fn to_text(&self) -> (r: String)
        ensures
            r@ == addr_text((self.0)@),
    {
        let a: [u8; 6] = self.0;
        let mut v: Vec<char> = Vec::new();
        push_capital(&mut v, a[0]);
        v.push(':');
        push_capital(&mut v, a[1]);
        v.push(':');
        push_capital(&mut v, a[2]);
        v.push(':');
        push_capital(&mut v, a[3]);
        v.push(':');
        push_capital(&mut v, a[4]);
        v.push(':');
        push_capital(&mut v, a[5]);
        assert(v@ =~= addr_text(a@));
        text_of(&v)
    }
}

fn push_capital(v: &mut Vec<char>, b: u8)
    ensures
        final(v)@ == old(v)@ + capital_hex(b),
{
    v.push(capital_digit_of(b / 16));
    v.push(capital_digit_of(b % 16));
    assert(v@ =~= old(v)@ + capital_hex(b));
}

proof fn lemma_digit(p: int, q: int, x: u8, y: u8)
    requires
        0x100 * p + x == 0x100 * q + y,
    ensures
        p == q,
        x == y,
{
}

/// An address is what its number says: no two addresses share one.
pub proof fn lemma_address_is_its_number(a: Seq<u8>, b: Seq<u8>)
    requires
        a.len() == 6,
        b.len() == 6,
        addr_value(a) == addr_value(b),
    ensures
        a == b,
{
    let p1 = a[0] * 0x100 + a[1];
    let q1 = b[0] * 0x100 + b[1];
    let p2 = p1 * 0x100 + a[2];
    let q2 = q1 * 0x100 + b[2];
    let p3 = p2 * 0x100 + a[3];
    let q3 = q2 * 0x100 + b[3];
    let p4 = p3 * 0x100 + a[4];
    let q4 = q3 * 0x100 + b[4];
    lemma_digit(p4, q4, a[5], b[5]);
    lemma_digit(p3, q3, a[4], b[4]);
    lemma_digit(p2, q2, a[3], b[3]);
    lemma_digit(p1, q1, a[2], b[2]);
    lemma_digit(a[0] as int, b[0] as int, a[1], b[1]);
    assert(a =~= b);
}

/// What an advertisement of the phone carries.
#[derive(Debug, Clone, Copy, PartialEq, Eq)]
pub struct AdvPayload {
    /// The phone's pairing window is open.
    pub pairable: bool,
    /// The phone is paired, and shows its presence to its partners.
    pub trusted_presence: bool,
    /// The presence token, or the instance of the pairing window.
    pub payload_8: [u8; 8],
}

/// A phone seen on air. The address changes every few minutes; the payload is
/// what identifies.
#[derive(Debug, Clone, PartialEq, Eq)]
pub struct AdvCandidate {
    pub addr: PeerAddr,
    pub payload: AdvPayload,
    /// Signal strength, where it is known.
    pub rssi: Option<i16>,
    /// The name that the phone shows, when it shows one.
    pub local_name: Option<String>,
}

/// A GATT identifier.
pub type Uuid128 = u128;

/// Which screen edge the phone sits on.
#[derive(Debug, Clone, Copy, PartialEq, Eq, Structural)]
pub enum Edge {
    Left,
    Right,
    Top,
    Bottom,
}

/// The operating system of this machine.
#[derive(Debug, Clone, Copy, PartialEq, Eq, Structural)]
pub enum Host {
    Linux,
    Windows,
}

/// The name of the machine as the user knows it: what the system says without
/// white space around it, if anything is left.
pub fn host_name(raw: Option<&str>) -> (r: Option<String>)
    ensures
        match raw {
            None => r is None,
            Some(s) => {
                &&& r is Some <==> text::trimmed(s@).len() > 0
                &&& r is Some ==> r->0@ == text::trimmed(s@)
            },
        },
{
    match raw {
        None => None,
        Some(s) => {
            let t = trim(s);
            if t.as_str().is_empty() {
                None
            } else {
                Some(t)
            }
        },
    }
}

/// A path in quotes, for a command line that is split at spaces. One that is in
/// quotes already stays as it is.
pub open spec fn quoted(s: Seq<char>) -> Seq<char> {
    if s.len() > 1 && s[0] == '"' && s.last() == '"' {
        s
    } else {
        seq!['"'] + s + seq!['"']
    }
}

/// Quotes the path of a program for a Windows command line.
pub fn quoted_command(exe: &str) -> (r: String)
    ensures
        r@ == quoted(exe@),
{
    let v = chars_of(exe);
    if v.len() > 1 && v[0] == '"' && v[v.len() - 1] == '"' {
        return exe.to_owned();
    }
    let mut w: Vec<char> = Vec::new();
    w.push('"');
    let mut i: usize = 0;
    while i < v.len()
        invariant
            v@ == exe@,
            i <= v@.len(),
            w@ =~= seq!['"'] + exe@.take(i as int),
        decreases v.len() - i,
    {
        w.push(v[i]);
        i += 1;
    }
    w.push('"');
    assert(exe@.take(i as int) =~= exe@);
    assert(w@ =~= quoted(exe@));
    text_of(&w)
}

/// Quoting twice is quoting once, and what is quoted begins and ends with a
/// quote.
pub proof fn lemma_quoting_is_idempotent(s: Seq<char>)
    ensures
        quoted(quoted(s)) == quoted(s),
        quoted(s).len() >= 2,
        quoted(s)[0] == '"',
        quoted(s).last() == '"',
{
}

/// An address survives the way through its number, and its text is made of its bytes in order,
/// each as two capital hexadecimal digits.
pub proof fn lemma_address_is_read_back(
    a: PeerAddr,
    n: u64,
    back: PeerAddr,
    p: &PeerAddr,
    t: String,
    i: int,
)
    requires
        call_ensures(PeerAddr::to_u48, (a,), n),
        call_ensures(PeerAddr::from_u48, (n,), back),
        call_ensures(PeerAddr::to_text, (p,), t),
        0 <= i < 6,
    ensures
        (back.0)@ == (a.0)@,
        n % 0x100 == (a.0)@[5],
        n / 0x100_0000_0000 == (a.0)@[0],
        t@.len() == 17,
        i < 5 ==> t@[3 * i + 2] == ':',
        "0123456789ABCDEF"@[(p.0)@[i] as int / 16] == t@[3 * i],
        "0123456789ABCDEF"@[(p.0)@[i] as int % 16] == t@[3 * i + 1],
{
    reveal_strlit("0123456789ABCDEF");
    lemma_address_is_its_number((back.0)@, (a.0)@);
    let d = "0123456789ABCDEF"@;
    assert forall|k: int| 0 <= k < 16 implies #[trigger] d[k] == capital_digit(k) by {}
    let b = (p.0)@;
    assert(t@[3 * i] == capital_digit(b[i] as int / 16)) by {
        assert(i == 0 || i == 1 || i == 2 || i == 3 || i == 4 || i == 5);
    }
    assert(t@[3 * i + 1] == capital_digit(b[i] as int % 16)) by {
        assert(i == 0 || i == 1 || i == 2 || i == 3 || i == 4 || i == 5);
    }
    assert(i < 5 ==> t@[3 * i + 2] == ':') by {
        assert(i == 0 || i == 1 || i == 2 || i == 3 || i == 4 || i == 5);
    }
}

/// A path without quotes gets them, one at each end, and one with quotes keeps those it has.
pub proof fn lemma_path_gets_quotes(exe: &str, r: String)
    requires
        call_ensures(quoted_command, (exe,), r),
    ensures
        (forall|i: int| 0 <= i < exe@.len() ==> #[trigger] exe@[i] != '"') ==> r@ == seq!['"'] + exe@
            + seq!['"'],
        exe@.len() >= 2 && exe@[0] == '"' && exe@[exe@.len() - 1] == '"' ==> r@ == exe@,
{
    if forall|i: int| 0 <= i < exe@.len() ==> #[trigger] exe@[i] != '"' {
        if exe@.len() > 0 {
            assert(exe@[0] != '"');
        }
    }
}

/// The machine is called what the system calls it, without white space around the name, and a
/// blank name is none.
pub proof fn lemma_machine_has_a_name(raw: Option<&str>, r: Option<String>)
    requires
        call_ensures(host_name, (raw,), r),
    ensures
        r is Some <==> raw is Some && text::trimmed((raw->0)@).len() > 0,
        r is Some ==> r->0@ == text::trimmed((raw->0)@),
{
}

} // verus!
