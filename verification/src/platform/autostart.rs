//! Starting with the user's session: the entry that Windows keeps for programs
//! to run at logon is a command line in UTF-16 that ends with a zero.

use vstd::prelude::*;
use vstd::utf8;

use crate::platform;
use crate::platform::quoted_command;
use crate::text;
use crate::text::{chars_of, same_text, text_of, to_ascii_lowercase};

verus! {

/// The one or two UTF-16 units of a character.
pub open spec fn utf16_units(c: char) -> Seq<u16> {
    let n = c as u32;
    if n < 0x1_0000 {
        seq![n as u16]
    } else {
        seq![
            (0xd800 + (n - 0x1_0000) / 0x400) as u16,
            (0xdc00 + (n - 0x1_0000) % 0x400) as u16,
        ]
    }
}

/// A text in UTF-16.
pub open spec fn utf16(s: Seq<char>) -> Seq<u16>
    decreases s.len(),
{
    if s.len() == 0 {
        Seq::empty()
    } else {
        utf16_units(s[0]) + utf16(s.drop_first())
    }
}

/// The first character of a UTF-16 sequence, and how many units it takes. A
/// surrogate without its partner reads as the replacement character.
pub open spec fn utf16_first(u: Seq<u16>) -> (char, int) {
    let a = u[0];
    if !(0xd800 <= a <= 0xdfff) {
        (a as char, 1)
    } else if a <= 0xdbff && u.len() > 1 && 0xdc00 <= u[1] <= 0xdfff {
        ((0x1_0000 + (a - 0xd800) * 0x400 + (u[1] - 0xdc00)) as char, 2)
    } else {
        ('\u{fffd}', 1)
    }
}

/// The text of a UTF-16 sequence.
pub open spec fn utf16_text(u: Seq<u16>) -> Seq<char>
    decreases u.len(),
{
    if u.len() == 0 {
        Seq::empty()
    } else {
        seq![utf16_first(u).0] + utf16_text(u.skip(utf16_first(u).1))
    }
}

/// The character with the number `n`, by `char::from_u32`: there is one exactly
/// when `n` is a Unicode scalar value, and it has that number.
#[verifier::external_body]
fn char_of(n: u32) -> (r: Option<char>)
    ensures
        r is Some <==> utf8::is_scalar(n),
        r is Some ==> r->0 as u32 == n,
{
    char::from_u32(n)
}

/// The text of a UTF-16 sequence.
pub fn read_utf16(u: &Vec<u16>) -> (r: String)
    ensures
        r@ == utf16_text(u@),
{
    let mut v: Vec<char> = Vec::new();
    let mut i: usize = 0;
    assert(u@.skip(0) =~= u@);
    assert(v@ + utf16_text(u@) =~= utf16_text(u@));
    while i < u.len()
        invariant
            i <= u@.len(),
            v@ + utf16_text(u@.skip(i as int)) == utf16_text(u@),
        decreases u.len() - i,
    {
        let ghost rest = u@.skip(i as int);
        let ghost before = v@;
        let a: u16 = u[i];
        let pair = a >= 0xd800 && a <= 0xdbff && i + 1 < u.len() && u[i + 1] >= 0xdc00 && u[i + 1]
            <= 0xdfff;
        let n: u32 = if pair {
            0x1_0000 + (a as u32 - 0xd800) * 0x400 + (u[i + 1] as u32 - 0xdc00)
        } else {
            a as u32
        };
        let c: char = match char_of(n) {
            Some(c) => c,
            None => '\u{fffd}',
        };
        assert(rest[0] == a);
        assert(i + 1 < u@.len() ==> rest[1] == u@[i + 1]);
        assert(pair ==> 0x1_0000 <= n <= 0x10_ffff);
        assert(!pair && 0xd800 <= a <= 0xdfff ==> !utf8::is_scalar(n));
        proof {
            utf8::char_u32_cast(c, c as u32);
        }
        assert(c == utf16_first(rest).0);
        v.push(c);
        let step: usize = if pair {
            2
        } else {
            1
        };
        assert(rest.skip(step as int) =~= u@.skip(i + step));
        assert(v@ + utf16_text(u@.skip(i + step)) =~= before + utf16_text(rest));
        i = i + step;
    }
    assert(u@.skip(i as int) =~= Seq::<u16>::empty());
    assert(v@ =~= v@ + utf16_text(u@.skip(i as int)));
    text_of(&v)
}

/// A text in UTF-16, with a zero at its end.
pub fn wide(s: &str) -> (r: Vec<u16>)
    ensures
        r@ == utf16(s@).push(0u16),
{
    let v = chars_of(s);
    let mut r: Vec<u16> = Vec::new();
    let mut i: usize = 0;
    assert(s@.skip(0) =~= s@);
    assert(r@ + utf16(s@) =~= utf16(s@));
    while i < v.len()
        invariant
            v@ == s@,
            i <= v@.len(),
            r@ + utf16(s@.skip(i as int)) == utf16(s@),
        decreases v.len() - i,
    {
        let ghost before = r@;
        let ghost rest = s@.skip(i as int);
        let n: u32 = v[i] as u32;
        proof {
            utf8::char_is_scalar(v@[i as int]);
        }
        if n < 0x1_0000 {
            r.push(n as u16);
        } else {
            r.push((0xd800 + (n - 0x1_0000) / 0x400) as u16);
            r.push((0xdc00 + (n - 0x1_0000) % 0x400) as u16);
        }
        assert(r@ =~= before + utf16_units(rest[0]));
        assert(rest.drop_first() =~= s@.skip(i + 1));
        assert(r@ + utf16(s@.skip(i + 1)) =~= before + utf16(rest));
        i += 1;
    }
    assert(s@.skip(i as int) =~= Seq::<char>::empty());
    assert(r@ =~= r@ + utf16(s@.skip(i as int)));
    r.push(0);
    r
}

/// The units that bytes write, the low byte of each first; an odd byte at the end
/// is left out.
pub open spec fn units_of(b: Seq<u8>) -> Seq<u16> {
    Seq::new(b.len() / 2, |i: int| (b[2 * i] + 0x100 * b[2 * i + 1]) as u16)
}

/// The bytes of units, the low byte of each first.
pub open spec fn unit_bytes(u: Seq<u16>) -> Seq<u8> {
    Seq::new(
        2 * u.len(),
        |i: int|
            if i % 2 == 0 {
                (u[i / 2] as int % 0x100) as u8
            } else {
                (u[i / 2] as int / 0x100) as u8
            },
    )
}

/// What stands before the first zero.
pub open spec fn before_zero(u: Seq<u16>) -> Seq<u16>
    decreases u.len(),
{
    if u.len() == 0 || u[0] == 0 {
        Seq::empty()
    } else {
        seq![u[0]] + before_zero(u.drop_first())
    }
}

/// The text of an entry, whose bytes are UTF-16 up to a zero.
pub open spec fn entry_text(b: Seq<u8>) -> Seq<char> {
    utf16_text(before_zero(units_of(b)))
}

/// The text of an entry.
pub fn read_entry(b: &Vec<u8>) -> (r: String)
    ensures
        r@ == entry_text(b@),
{
    let mut u: Vec<u16> = Vec::new();
    let mut i: usize = 0;
    let len: usize = b.len();
    let n: usize = len / 2;
    let ghost all = units_of(b@);
    assert(all.skip(0) =~= all);
    assert(u@ + before_zero(all) =~= before_zero(all));
    while i < n
        invariant
            len == b@.len(),
            n == len / 2,
            all == units_of(b@),
            i <= n,
            u@ + before_zero(all.skip(i as int)) == before_zero(all),
        decreases n - i,
    {
        let ghost before = u@;
        let x: u16 = b[2 * i] as u16 + 0x100 * b[2 * i + 1] as u16;
        let ghost rest = all.skip(i as int);
        assert(rest[0] == x);
        if x == 0 {
            assert(u@ =~= u@ + before_zero(rest));
            return read_utf16(&u);
        }
        u.push(x);
        assert(rest.drop_first() =~= all.skip(i + 1));
        assert(u@ + before_zero(all.skip(i + 1)) =~= before + before_zero(rest));
        i += 1;
    }
    assert(all.skip(i as int) =~= Seq::<u16>::empty());
    assert(u@ =~= u@ + before_zero(all.skip(i as int)));
    read_utf16(&u)
}

/// The bytes of units.
pub fn bytes_of_units(u: &Vec<u16>) -> (r: Vec<u8>)
    ensures
        r@ == unit_bytes(u@),
{
    let mut r: Vec<u8> = Vec::new();
    let mut i: usize = 0;
    while i < u.len()
        invariant
            i <= u@.len(),
            r@.len() == 2 * i,
            forall|k: int| 0 <= k < 2 * i ==> #[trigger] r@[k] == unit_bytes(u@)[k],
        decreases u.len() - i,
    {
        r.push((u[i] % 0x100) as u8);
        r.push((u[i] / 0x100) as u8);
        i += 1;
    }
    assert(r@ =~= unit_bytes(u@));
    r
}

/// Run at logon.
pub trait Autostart {
    /// What the program is registered as.
    spec fn registered(&self) -> bool;

    /// Whether this program starts with the session.
    fn is_enabled(&self) -> (r: bool)
        ensures
            r == self.registered(),
    ;

    /// Registers this program, or takes the registration away.
    fn set_enabled(&mut self, on: bool) -> (r: Result<(), String>);
}

/// The entry of this program in the list of programs to run at logon.
pub struct WindowsAutostart {
    /// The path of this program, or why it cannot be told.
    pub exe: Result<String, String>,
    /// The bytes of the entry, when there is one.
    pub entry: Option<Vec<u8>>,
}

/// The entry starts this very program: after a move the old path starts nothing,
/// and counts as no registration.
pub open spec fn entry_starts(entry: Option<Seq<u8>>, exe: Seq<char>) -> bool {
    match entry {
        Some(b) => text::ascii_lowered(entry_text(b)) == text::ascii_lowered(platform::quoted(exe)),
        None => false,
    }
}

/// What an optional entry says.
pub open spec fn entry_view(entry: Option<Vec<u8>>) -> Option<Seq<u8>> {
    match entry {
        Some(b) => Some(b@),
        None => None,
    }
}

impl Autostart for WindowsAutostart {
    open spec fn registered(&self) -> bool {
        match self.exe {
            Ok(exe) => entry_starts(entry_view(self.entry), exe@),
            Err(_) => false,
        }
    }

    fn is_enabled(&self) -> (r: bool) {
        match &self.exe {
            Ok(exe) => match &self.entry {
                Some(b) => {
                    let want = quoted_command(exe.as_str());
                    let have = read_entry(b);
                    same_text(
                        to_ascii_lowercase(have.as_str()).as_str(),
                        to_ascii_lowercase(want.as_str()).as_str(),
                    )
                },
                None => false,
            },
            Err(_) => false,
        }
    }

    fn set_enabled(&mut self, on: bool) -> (r: Result<(), String>)
        ensures
            final(self).exe == old(self).exe,
            !on ==> r is Ok && final(self).entry is None,
            on ==> match old(self).exe {
                Ok(exe) => {
                    &&& r is Ok
                    &&& entry_view(final(self).entry) == Some(
                        unit_bytes(utf16(platform::quoted(exe@)).push(0u16)),
                    )
                },
                Err(e) => {
                    &&& r is Err
                    &&& r->Err_0@ == "current_exe: "@ + e@
                    &&& entry_view(final(self).entry) == entry_view(old(self).entry)
                },
            },
    {
        if !on {
            self.entry = None;
            return Ok(());
        }
        let line: String = match &self.exe {
            Ok(exe) => quoted_command(exe.as_str()),
            Err(e) => {
                return Err("current_exe: ".to_owned().concat(e.as_str()));
            },
        };
        let units = wide(line.as_str());
        self.entry = Some(bytes_of_units(&units));
        Ok(())
    }
}

/// Reading what was written in UTF-16 gives the text back.
pub proof fn lemma_utf16_round_trip(s: Seq<char>)
    ensures
        utf16_text(utf16(s)) == s,
    decreases s.len(),
{
    if s.len() > 0 {
        let c = s[0];
        let n = c as u32;
        let u = utf16(s);
        let rest = s.drop_first();
        utf8::char_is_scalar(c);
        lemma_utf16_round_trip(rest);
        assert(u == utf16_units(c) + utf16(rest));
        assert(u[0] == utf16_units(c)[0]);
        utf8::char_u32_cast(c, n);
        if n < 0x1_0000 {
            assert(utf16_first(u) == (c, 1int));
            assert(u.skip(1) =~= utf16(rest));
        } else {
            let m = n - 0x1_0000;
            assert(u[1] == utf16_units(c)[1]);
            assert(m == 0x400 * (m / 0x400) + m % 0x400);
            assert(utf16_first(u) == (c, 2int));
            assert(u.skip(2) =~= utf16(rest));
        }
        assert(utf16_text(u) =~= s);
    } else {
        assert(utf16(s) =~= Seq::<u16>::empty());
    }
}

proof fn lemma_before_zero(u: Seq<u16>)
    requires
        forall|i: int| 0 <= i < u.len() ==> #[trigger] u[i] != 0,
    ensures
        before_zero(u.push(0u16)) == u,
    decreases u.len(),
{
    let w = u.push(0u16);
    if u.len() > 0 {
        let t = u.drop_first();
        assert forall|i: int| 0 <= i < t.len() implies #[trigger] t[i] != 0 by {
            assert(t[i] == u[i + 1]);
        }
        lemma_before_zero(t);
        assert(w.drop_first() =~= t.push(0u16));
        assert(w[0] == u[0]);
        assert(before_zero(w) =~= u);
    }
}

proof fn lemma_utf16_has_no_zero(s: Seq<char>)
    requires
        forall|i: int| 0 <= i < s.len() ==> #[trigger] s[i] != '\0',
    ensures
        forall|i: int| 0 <= i < utf16(s).len() ==> #[trigger] utf16(s)[i] != 0,
    decreases s.len(),
{
    if s.len() > 0 {
        let rest = s.drop_first();
        assert forall|i: int| 0 <= i < rest.len() implies #[trigger] rest[i] != '\0' by {
            assert(rest[i] == s[i + 1]);
        }
        lemma_utf16_has_no_zero(rest);
        utf8::char_is_scalar(s[0]);
        utf8::char_u32_cast(s[0], s[0] as u32);
        let head = utf16_units(s[0]);
        assert(s[0] as u32 != 0);
        assert(forall|i: int| 0 <= i < head.len() ==> #[trigger] head[i] != 0);
        assert forall|i: int| 0 <= i < utf16(s).len() implies #[trigger] utf16(s)[i] != 0 by {
            if i >= head.len() {
                assert(utf16(s)[i] == utf16(rest)[i - head.len()]);
            } else {
                assert(utf16(s)[i] == head[i]);
            }
        }
    }
}

proof fn lemma_unit_bytes(u: Seq<u16>)
    ensures
        units_of(unit_bytes(u)) == u,
{
    let b = unit_bytes(u);
    assert forall|i: int| 0 <= i < u.len() implies #[trigger] units_of(b)[i] == u[i] by {
        assert((2 * i) / 2 == i && (2 * i) % 2 == 0);
        assert((2 * i + 1) / 2 == i && (2 * i + 1) % 2 == 1);
        assert(b[2 * i] == (u[i] as int % 0x100) as u8);
        assert(b[2 * i + 1] == (u[i] as int / 0x100) as u8);
    }
    assert(units_of(b) =~= u);
}

/// Registering takes effect: an entry that was written for this program starts
/// it, for every path without a zero in it.
pub proof fn lemma_registering_takes_effect(exe: Seq<char>)
    requires
        forall|i: int| 0 <= i < exe.len() ==> #[trigger] exe[i] != '\0',
    ensures
        entry_starts(Some(unit_bytes(utf16(platform::quoted(exe)).push(0u16))), exe),
{
    let line = platform::quoted(exe);
    assert forall|i: int| 0 <= i < line.len() implies #[trigger] line[i] != '\0' by {
        if line.len() > exe.len() && 0 < i < line.len() - 1 {
            assert(line[i] == exe[i - 1]);
        }
    }
    lemma_utf16_has_no_zero(line);
    lemma_unit_bytes(utf16(line).push(0u16));
    lemma_before_zero(utf16(line));
    lemma_utf16_round_trip(line);
}

/// Registering and asking: once this program was registered it counts as registered, and once
/// it was taken out it does not; without a path of its own it cannot be registered, and says
/// why.
pub proof fn lemma_registration_is_a_switch(
    a: &mut WindowsAutostart,
    on: bool,
    r: Result<(), String>,
    after: &WindowsAutostart,
    enabled: bool,
)
    requires
        call_ensures(WindowsAutostart::set_enabled, (a, on), r),
        *after == *final(a),
        call_ensures(WindowsAutostart::is_enabled, (after,), enabled),
        old(a).exe is Ok ==> forall|i: int|
            0 <= i < old(a).exe->Ok_0@.len() ==> #[trigger] old(a).exe->Ok_0@[i] != '\0',
    ensures
        old(a).exe is Ok ==> r is Ok && enabled == on,
        !on ==> r is Ok && !enabled && final(a).entry is None,
        on && old(a).exe is Err ==> r is Err && r->Err_0@ == "current_exe: "@ + old(a).exe->Err_0@,
{
    if on && old(a).exe is Ok {
        lemma_registering_takes_effect(old(a).exe->Ok_0@);
    }
}

/// An entry for another program counts as none: what is written down must be this program's
/// path in quotes, whatever its capitals.
pub proof fn lemma_entry_of_another_program(a: &WindowsAutostart, r: bool)
    requires
        call_ensures(WindowsAutostart::is_enabled, (a,), r),
    ensures
        a.entry is None ==> !r,
        a.exe is Err ==> !r,
        a.entry is Some && a.exe is Ok ==> (r <==> text::ascii_lowered(entry_text((a.entry->0)@))
            == text::ascii_lowered(platform::quoted(a.exe->Ok_0@))),
{
}

/// Each unit is written with its low byte first, and a text ends with a zero.
pub proof fn lemma_low_byte_first(u: &Vec<u16>, b: Vec<u8>, s: &str, w: Vec<u16>, i: int)
    requires
        call_ensures(bytes_of_units, (u,), b),
        call_ensures(wide, (s,), w),
        0 <= i < u@.len(),
    ensures
        b@.len() == 2 * u@.len(),
        b@[2 * i] == u@[i] % 256,
        b@[2 * i + 1] == u@[i] / 256,
        w@.len() > 0 && w@.last() == 0,
        utf16_text(w@.drop_last()) == s@,
{
    assert((2 * i) / 2 == i && (2 * i) % 2 == 0);
    assert((2 * i + 1) / 2 == i && (2 * i + 1) % 2 == 1);
    lemma_utf16_round_trip(s@);
    assert(w@.drop_last() =~= utf16(s@));
}

} // verus!
