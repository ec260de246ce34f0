//! The GATT side of the phone: which characteristics a link has resolved, and
//! what the answers of the radio mean.

use vstd::prelude::*;

use crate::codec;
use crate::codec::copy_bytes;
use crate::platform;
use crate::platform::{AdvCandidate, AdvPayload, PeerAddr, Uuid128};
use crate::text;
use crate::text::{decimal_text, push_char, text_of};

verus! {

/// `n` as `width` hexadecimal digits in small letters; higher digits are left out.
pub open spec fn hex_fixed(n: nat, width: nat) -> Seq<char>
    decreases width,
{
    if width == 0 {
        Seq::empty()
    } else {
        hex_fixed(n / 16, (width - 1) as nat).push(codec::hex_digit((n % 16) as int))
    }
}

/// An identifier in its usual form: 32 digits in groups of 8, 4, 4, 4 and 12.
pub open spec fn uuid_text(n: nat) -> Seq<char> {
    let h = hex_fixed(n, 32);
    h.subrange(0, 8) + seq!['-'] + h.subrange(8, 12) + seq!['-'] + h.subrange(12, 16) + seq!['-']
        + h.subrange(16, 20) + seq!['-'] + h.subrange(20, 32)
}

/// An identifier in its usual form, by `uuid::Uuid::from_u128` and the `Display`
/// of `uuid::Uuid`: 32 hexadecimal digits in small letters, the highest first,
/// with hyphens between the groups.
#[verifier::external_body]
pub(crate) fn uuid_display(n: u128) -> (r: String)
    ensures
        r@ == uuid_text(n as nat),
{
    uuid::Uuid::from_u128(n).to_string()
}

fn hex_fixed_text(n: u128, width: usize) -> (r: String)
    ensures
        r@ == hex_fixed(n as nat, width as nat),
    decreases width,
{
    if width == 0 {
        let r = String::new();
        assert(r@ =~= Seq::<char>::empty());
        return r;
    }
    let mut r = hex_fixed_text(n / 16, width - 1);
    let d: u8 = (n % 16) as u8;
    let c: char = if d < 10 {
        (48 + d) as char
    } else {
        (87 + d) as char
    };
    push_char(&mut r, c);
    r
}

/// A characteristic of the phone.
#[derive(Debug, Clone, Copy, PartialEq, Eq, Structural)]
pub enum GattSlot {
    Capability,
    PairingControl,
    ReconnectControl,
    AudioSignal,
}

/// The characteristics of a link on Linux. The set is fixed, and only the signal
/// characteristic may be missing.
#[derive(Clone, Copy)]
pub struct LinuxGattLink {
    pub addr: PeerAddr,
    pub capability: Uuid128,
    pub pairing_control: Uuid128,
    pub reconnect_control: Uuid128,
    pub audio_signal: Uuid128,
    /// The phone offers the signal characteristic.
    pub has_audio_signal: bool,
}

/// The characteristic that an identifier names on a link.
pub open spec fn slot_of(link: LinuxGattLink, uuid: Uuid128) -> Option<GattSlot> {
    if uuid == link.capability {
        Some(GattSlot::Capability)
    } else if uuid == link.pairing_control {
        Some(GattSlot::PairingControl)
    } else if uuid == link.reconnect_control {
        Some(GattSlot::ReconnectControl)
    } else if uuid == link.audio_signal && link.has_audio_signal {
        Some(GattSlot::AudioSignal)
    } else {
        None
    }
}

/// A GATT link to the phone.
pub trait GattLink {
    spec fn resolved(&self, uuid: Uuid128) -> bool;

    /// Whether the link has resolved a characteristic.
    fn has(&self, uuid: Uuid128) -> (r: bool)
        ensures
            r == self.resolved(uuid),
    ;

    /// Which phone the link talks to.
    fn peer(&self) -> PeerAddr;
}

impl LinuxGattLink {
    /// The characteristic that `uuid` names. A phone without the signal
    /// characteristic is told from an identifier that names none.
    pub fn characteristic(&self, uuid: Uuid128) -> (r: Result<GattSlot, String>)
        ensures
            match r {
                Ok(slot) => slot_of(*self, uuid) == Some(slot),
                Err(e) => slot_of(*self, uuid) is None && e@ == (if uuid == self.audio_signal {
                    "audio-signal characteristic absent on this peer"@
                } else {
                    uuid_text(uuid as nat) + " is not a vortex characteristic"@
                }),
            },
    {
        if uuid == self.capability {
            Ok(GattSlot::Capability)
        } else if uuid == self.pairing_control {
            Ok(GattSlot::PairingControl)
        } else if uuid == self.reconnect_control {
            Ok(GattSlot::ReconnectControl)
        } else if uuid == self.audio_signal {
            if self.has_audio_signal {
                Ok(GattSlot::AudioSignal)
            } else {
                Err("audio-signal characteristic absent on this peer".to_owned())
            }
        } else {
            Err(uuid_display(uuid).concat(" is not a vortex characteristic"))
        }
    }
}

impl GattLink for LinuxGattLink {
    open spec fn resolved(&self, uuid: Uuid128) -> bool {
        slot_of(*self, uuid) is Some
    }

    fn has(&self, uuid: Uuid128) -> (r: bool) {
        self.characteristic(uuid).is_ok()
    }

    fn peer(&self) -> (r: PeerAddr)
        ensures
            r == self.addr,
    {
        self.addr
    }
}

/// The last place of `x` in a list of identifiers.
fn find_uuid(v: &Vec<u128>, x: u128) -> (r: Option<usize>)
    ensures
        r is Some <==> v@.contains(x),
        r matches Some(i) ==> i < v@.len() && v@[i as int] == x && forall|j: int|
            i < j < v@.len() ==> v@[j] != x,
{
    let mut i: usize = v.len();
    while i > 0
        invariant
            i <= v@.len(),
            forall|j: int| i <= j < v@.len() ==> v@[j] != x,
        decreases i,
    {
        i -= 1;
        if v[i] == x {
            return Some(i);
        }
    }
    None
}

/// The characteristics of a link on Windows: those that were found when the link
/// came up.
pub struct WindowsGattLink {
    pub addr: PeerAddr,
    pub chars: Vec<Uuid128>,
}

impl WindowsGattLink {
    /// The place of the characteristic that `uuid` names. Of two with one identifier
    /// the last counts.
    pub fn characteristic(&self, uuid: Uuid128) -> (r: Result<usize, String>)
        ensures
            match r {
                Ok(i) => i < self.chars@.len() && self.chars@[i as int] == uuid && forall|j: int|
                    i < j < self.chars@.len() ==> self.chars@[j] != uuid,
                Err(e) => !self.chars@.contains(uuid) && e@ == "characteristic "@ + hex_fixed(
                    uuid as nat,
                    32,
                ) + " not on this device"@,
            },
    {
        match find_uuid(&self.chars, uuid) {
            Some(i) => Ok(i),
            None => {
                let digits = hex_fixed_text(uuid, 32);
                Err("characteristic ".to_owned().concat(digits.as_str()).concat(
                    " not on this device",
                ))
            },
        }
    }
}

impl GattLink for WindowsGattLink {
    open spec fn resolved(&self, uuid: Uuid128) -> bool {
        self.chars@.contains(uuid)
    }

    fn has(&self, uuid: Uuid128) -> (r: bool) {
        find_uuid(&self.chars, uuid).is_some()
    }

    fn peer(&self) -> (r: PeerAddr)
        ensures
            r == self.addr,
    {
        self.addr
    }
}

/// One frame that was written: to which characteristic, what, and whether an
/// answer was asked for.
pub struct WriteRecord {
    pub uuid: Uuid128,
    pub data: Vec<u8>,
    pub with_response: bool,
}

/// A link without a radio: writes are recorded, reads give what was scripted, and
/// notifications are what is pushed.
pub struct FakeGattLink {
    pub present: Vec<Uuid128>,
    pub writes: Vec<WriteRecord>,
    pub reads: Vec<(Uuid128, Vec<u8>)>,
    /// One for every subscription: the characteristic, and what was pushed on it
    /// and not received yet, the oldest first.
    pub inboxes: Vec<(Uuid128, Vec<Vec<u8>>)>,
    pub connected: bool,
}

/// What an inbox holds.
pub open spec fn inbox_view(b: (Uuid128, Vec<Vec<u8>>)) -> (Uuid128, Seq<Seq<u8>>) {
    (b.0, b.1@.map_values(|m: Vec<u8>| m@))
}

/// What a list of inboxes holds.
pub open spec fn inbox_views(v: Seq<(Uuid128, Vec<Vec<u8>>)>) -> Seq<(Uuid128, Seq<Seq<u8>>)> {
    v.map_values(|b: (Uuid128, Vec<Vec<u8>>)| inbox_view(b))
}

/// The inboxes after a notification: it reaches every subscription to its
/// characteristic, and no other.
pub open spec fn notified(
    v: Seq<(Uuid128, Seq<Seq<u8>>)>,
    uuid: Uuid128,
    bytes: Seq<u8>,
) -> Seq<(Uuid128, Seq<Seq<u8>>)> {
    v.map_values(
        |b: (Uuid128, Seq<Seq<u8>>)|
            if b.0 == uuid {
                (b.0, b.1.push(bytes))
            } else {
                b
            },
    )
}

impl FakeGattLink {
    /// A link that has these characteristics.
    pub fn new(present: Vec<Uuid128>) -> (r: Self)
        ensures
            r.present == present,
            r.writes@.len() == 0,
            r.reads@.len() == 0,
            r.inboxes@.len() == 0,
            r.connected,
    {
        FakeGattLink {
            present,
            writes: Vec::new(),
            reads: Vec::new(),
            inboxes: Vec::new(),
            connected: true,
        }
    }

    /// Subscribes to a characteristic: the place of the new inbox. One that is not
    /// there is refused.
    pub fn subscribe(&mut self, uuid: Uuid128) -> (r: Result<usize, String>)
        ensures
            r is Ok <==> old(self).present@.contains(uuid),
            r matches Ok(i) ==> i == old(self).inboxes@.len() && inbox_views(final(self).inboxes@)
                == inbox_views(old(self).inboxes@).push((uuid, Seq::empty())),
            r matches Err(e) ==> e@ == "no such characteristic"@ && final(self).inboxes == old(
                self,
            ).inboxes,
            final(self).present == old(self).present,
            final(self).writes == old(self).writes,
            final(self).reads == old(self).reads,
            final(self).connected == old(self).connected,
    {
        if find_uuid(&self.present, uuid).is_none() {
            return Err("no such characteristic".to_owned());
        }
        let at: usize = self.inboxes.len();
        let fresh: Vec<Vec<u8>> = Vec::new();
        assert(inbox_view((uuid, fresh)).1 =~= Seq::<Seq<u8>>::empty());
        self.inboxes.push((uuid, fresh));
        assert(inbox_views(self.inboxes@) =~= inbox_views(old(self).inboxes@).push(
            (uuid, Seq::empty()),
        ));
        Ok(at)
    }

    /// Delivers `bytes` as a notification, as the phone would.
    pub fn push_notification(&mut self, uuid: Uuid128, bytes: Vec<u8>)
        ensures
            inbox_views(final(self).inboxes@) == notified(
                inbox_views(old(self).inboxes@),
                uuid,
                bytes@,
            ),
            final(self).present == old(self).present,
            final(self).writes == old(self).writes,
            final(self).reads == old(self).reads,
            final(self).connected == old(self).connected,
    {
        let mut waiting: Vec<(Uuid128, Vec<Vec<u8>>)> = Vec::new();
        std::mem::swap(&mut waiting, &mut self.inboxes);
        let ghost all = waiting@;
        let mut done: Vec<(Uuid128, Vec<Vec<u8>>)> = Vec::new();
        assert(waiting@ =~= all.skip(0));
        while waiting.len() > 0
            invariant
                done@.len() + waiting@.len() == all.len(),
                waiting@ == all.skip(done@.len() as int),
                forall|j: int|
                    0 <= j < done@.len() ==> inbox_view(#[trigger] done@[j]) == notified(
                        inbox_views(all),
                        uuid,
                        bytes@,
                    )[j],
            decreases waiting.len(),
        {
            let ghost before = waiting@;
            let (u, mut queue) = waiting.remove(0);
            assert(before[0] == all[done@.len() as int]);
            assert(waiting@ =~= all.skip((done@.len() + 1) as int));
            let ghost held = queue@.map_values(|m: Vec<u8>| m@);
            if u == uuid {
                queue.push(copy_bytes(&bytes));
                assert(queue@.map_values(|m: Vec<u8>| m@) =~= held.push(bytes@));
            }
            done.push((u, queue));
        }
        self.inboxes = done;
        assert(inbox_views(self.inboxes@) =~= notified(inbox_views(all), uuid, bytes@));
    }

    /// Takes the oldest notification out of an inbox.
    pub fn receive(&mut self, inbox: usize) -> (r: Option<Vec<u8>>)
        ensures
            ({
                let v = inbox_views(old(self).inboxes@);
                if inbox < v.len() && v[inbox as int].1.len() > 0 {
                    let (uuid, queue) = v[inbox as int];
                    r is Some && r->0@ == queue[0] && inbox_views(final(self).inboxes@) == v.update(
                        inbox as int,
                        (uuid, queue.drop_first()),
                    )
                } else {
                    r is None && inbox_views(final(self).inboxes@) == v
                }
            }),
            final(self).present == old(self).present,
            final(self).writes == old(self).writes,
            final(self).reads == old(self).reads,
            final(self).connected == old(self).connected,
    {
        if inbox >= self.inboxes.len() || self.inboxes[inbox].1.len() == 0 {
            return None;
        }
        let ghost v = inbox_views(self.inboxes@);
        let (uuid, mut queue) = self.inboxes.remove(inbox);
        let first = queue.remove(0);
        assert(queue@.map_values(|m: Vec<u8>| m@) =~= v[inbox as int].1.drop_first());
        self.inboxes.insert(inbox, (uuid, queue));
        assert(inbox_views(self.inboxes@) =~= v.update(
            inbox as int,
            (uuid, v[inbox as int].1.drop_first()),
        ));
        Some(first)
    }

    /// Whether the link is up.
    pub fn is_connected(&self) -> (r: bool)
        ensures
            r == self.connected,
    {
        self.connected
    }

    /// Takes the link down, which always works and changes nothing.
    pub fn disconnect(&self) -> (r: Result<(), String>)
        ensures
            r is Ok,
    {
        Ok(())
    }

    /// Writes a frame. One to a characteristic that is not there is refused and
    /// leaves no record.
    pub fn write(&mut self, uuid: Uuid128, data: Vec<u8>, with_response: bool) -> (r: Result<
        (),
        String,
    >)
        ensures
            r is Ok <==> old(self).present@.contains(uuid),
            r is Err ==> r->Err_0@ == "no such characteristic"@,
            final(self).present == old(self).present,
            final(self).reads == old(self).reads,
            final(self).inboxes == old(self).inboxes,
            final(self).connected == old(self).connected,
            final(self).writes@ == (if r is Ok {
                old(self).writes@.push(WriteRecord { uuid, data, with_response })
            } else {
                old(self).writes@
            }),
    {
        if find_uuid(&self.present, uuid).is_none() {
            return Err("no such characteristic".to_owned());
        }
        self.writes.push(WriteRecord { uuid, data, with_response });
        Ok(())
    }

    /// Reads what was scripted last for a characteristic.
    pub fn read(&self, uuid: Uuid128) -> (r: Result<Vec<u8>, String>)
        ensures
            match r {
                Ok(v) => exists|i: int|
                    0 <= i < self.reads@.len() && (#[trigger] self.reads@[i]).0 == uuid
                        && self.reads@[i].1@ == v@ && forall|j: int|
                        i < j < self.reads@.len() ==> (#[trigger] self.reads@[j]).0 != uuid,
                Err(e) => e@ == "nothing scripted for this read"@ && forall|j: int|
                    0 <= j < self.reads@.len() ==> (#[trigger] self.reads@[j]).0 != uuid,
            },
    {
        let mut i: usize = self.reads.len();
        while i > 0
            invariant
                i <= self.reads@.len(),
                forall|j: int| i <= j < self.reads@.len() ==> (#[trigger] self.reads@[j]).0 != uuid,
            decreases i,
        {
            i -= 1;
            if self.reads[i].0 == uuid {
                let v = copy_bytes(&self.reads[i].1);
                assert(self.reads@[i as int].0 == uuid && self.reads@[i as int].1@ == v@);
                return Ok(v);
            }
        }
        Err("nothing scripted for this read".to_owned())
    }
}

impl GattLink for FakeGattLink {
    open spec fn resolved(&self, uuid: Uuid128) -> bool {
        self.present@.contains(uuid)
    }

    fn has(&self, uuid: Uuid128) -> (r: bool) {
        find_uuid(&self.present, uuid).is_some()
    }

    fn peer(&self) -> (r: PeerAddr)
        ensures
            (r.0)@ == seq![0xfau8, 0xce, 0x00, 0x00, 0x00, 0x01],
    {
        let r = PeerAddr([0xfa, 0xce, 0x00, 0x00, 0x00, 0x01]);
        assert((r.0)@ =~= seq![0xfau8, 0xce, 0x00, 0x00, 0x00, 0x01]);
        r
    }
}

/// A whole number in decimal, with a minus sign below zero.
pub open spec fn signed_decimal(n: int) -> Seq<char> {
    if n < 0 {
        seq!['-'] + text::decimal((-n) as nat)
    } else {
        text::decimal(n as nat)
    }
}

/// `n` in decimal, with a minus sign below zero.
pub fn signed_text(n: i64) -> (r: String)
    ensures
        r@ == signed_decimal(n as int),
{
    if n >= 0 {
        return decimal_text(n as u64);
    }
    let m: u64 = if n == i64::MIN {
        0x8000_0000_0000_0000
    } else {
        (-n) as u64
    };
    let mut v: Vec<char> = Vec::new();
    v.push('-');
    let mut r = text_of(&v);
    r.append(decimal_text(m).as_str());
    assert(r@ =~= signed_decimal(n as int));
    r
}

/// An error of the radio as text: what was done, what the system says, and its
/// number.
pub fn err(context: &str, message: &str, code: i32) -> (r: String)
    ensures
        r@ == context@ + ": "@ + message@ + " ("@ + signed_decimal(code as int) + ")"@,
{
    context.to_owned().concat(": ").concat(message).concat(" (").concat(
        signed_text(code as i64).as_str(),
    ).concat(")")
}

/// One section of an advertisement: its type, and the payload if it decodes as
/// one of the phone's.
pub struct AdSection {
    pub data_type: u8,
    pub payload: Option<AdvPayload>,
}

/// The type of a section with service data under a 128-bit identifier.
pub const AD_TYPE_SERVICE_DATA_128: u8 = 0x21;

/// Section `i` is the one that counts: the first with service data that decodes.
pub open spec fn is_vortex_section(sections: Seq<AdSection>, i: int) -> bool {
    &&& 0 <= i < sections.len()
    &&& sections[i].data_type == AD_TYPE_SERVICE_DATA_128
    &&& sections[i].payload is Some
    &&& forall|j: int|
        0 <= j < i ==> !((#[trigger] sections[j]).data_type == AD_TYPE_SERVICE_DATA_128
            && sections[j].payload is Some)
}

/// The phone that an advertisement comes from, if it comes from one: the first
/// section with service data that decodes tells. An unknown strength counts as
/// 0, and an empty name as none.
pub fn candidate_from(
    addr: u64,
    rssi: Option<i16>,
    name: &str,
    sections: &Vec<AdSection>,
) -> (r: Option<AdvCandidate>)
    ensures
        r is Some <==> exists|i: int| is_vortex_section(sections@, i),
        r matches Some(c) ==> {
            &&& exists|i: int|
                is_vortex_section(sections@, i) && Some(c.payload) == sections@[i].payload
            &&& platform::addr_value((c.addr.0)@) == addr % 0x1_0000_0000_0000
            &&& c.rssi == Some(match rssi {
                Some(x) => x,
                None => 0i16,
            })
            &&& c.local_name is Some <==> name@.len() > 0
            &&& c.local_name is Some ==> c.local_name->0@ == name@
        },
{
    let mut i: usize = 0;
    while i < sections.len()
        invariant
            i <= sections@.len(),
            forall|j: int|
                0 <= j < i ==> !((#[trigger] sections@[j]).data_type == AD_TYPE_SERVICE_DATA_128
                    && sections@[j].payload is Some),
        decreases sections.len() - i,
    {
        if sections[i].data_type == AD_TYPE_SERVICE_DATA_128 {
            match sections[i].payload {
                Some(payload) => {
                    let local_name: Option<String> = if name.is_empty() {
                        None
                    } else {
                        Some(name.to_owned())
                    };
                    let strength: i16 = match rssi {
                        Some(x) => x,
                        None => 0,
                    };
                    assert(is_vortex_section(sections@, i as int));
                    return Some(
                        AdvCandidate {
                            addr: PeerAddr::from_u48(addr),
                            payload,
                            rssi: Some(strength),
                            local_name,
                        },
                    );
                },
                None => {},
            }
        }
        i += 1;
    }
    assert forall|i: int| !is_vortex_section(sections@, i) by {
        if 0 <= i < sections@.len() {
            assert(!(sections@[i].data_type == AD_TYPE_SERVICE_DATA_128
                && sections@[i].payload is Some));
        }
    }
    None
}

/// The radio on Windows.
pub struct WindowsBleCentral;

/// What the search for the phone's service gave.
pub struct ServiceSearch {
    /// The search for the service succeeded; else what the system calls its state.
    pub services: Result<usize, String>,
    /// The search for the characteristics succeeded.
    pub characteristics_ok: bool,
    /// The characteristics that were found.
    pub characteristics: Vec<Uuid128>,
}

impl WindowsBleCentral {
    /// The link that a search for the phone's service leads to, or why there is
    /// none: the service out of reach, absent, or without characteristics that
    /// can be listed.
    pub fn resolve(&self, addr: PeerAddr, found: ServiceSearch) -> (r: Result<
        WindowsGattLink,
        String,
    >)
        ensures
            match found.services {
                Err(status) => r is Err && r->Err_0@ == "vortex service not reachable: status "@
                    + status@,
                Ok(n) => if n == 0 {
                    r is Err && r->Err_0@ == "vortex service absent on this device"@
                } else if !found.characteristics_ok {
                    r is Err && r->Err_0@ == "could not enumerate vortex characteristics"@
                } else {
                    r is Ok && r->Ok_0.addr == addr && r->Ok_0.chars == found.characteristics
                },
            },
    {
        match found.services {
            Err(status) => Err(
                "vortex service not reachable: status ".to_owned().concat(status.as_str()),
            ),
            Ok(n) => if n == 0 {
                Err("vortex service absent on this device".to_owned())
            } else if !found.characteristics_ok {
                Err("could not enumerate vortex characteristics".to_owned())
            } else {
                Ok(WindowsGattLink { addr, chars: found.characteristics })
            },
        }
    }
}

/// Each of the four identifiers names its characteristic on Linux, where they differ; the
/// signal is there when the phone offers it, and nothing else is.
pub proof fn lemma_characteristics_of_a_link(
    link: &LinuxGattLink,
    uuid: Uuid128,
    r: Result<GattSlot, String>,
)
    requires
        call_ensures(LinuxGattLink::characteristic, (link, uuid), r),
        link.capability != link.pairing_control,
        link.capability != link.reconnect_control,
        link.capability != link.audio_signal,
        link.pairing_control != link.reconnect_control,
        link.pairing_control != link.audio_signal,
        link.reconnect_control != link.audio_signal,
    ensures
        r == Ok::<GattSlot, String>(GattSlot::Capability) <==> uuid == link.capability,
        r == Ok::<GattSlot, String>(GattSlot::PairingControl) <==> uuid == link.pairing_control,
        r == Ok::<GattSlot, String>(GattSlot::ReconnectControl) <==> uuid == link.reconnect_control,
        r == Ok::<GattSlot, String>(GattSlot::AudioSignal) <==> uuid == link.audio_signal
            && link.has_audio_signal,
        uuid == link.audio_signal && !link.has_audio_signal ==> r is Err && r->Err_0@
            == "audio-signal characteristic absent on this peer"@,
{
}

/// What is pushed on a characteristic reaches whoever subscribed to it, in order and once, and
/// nobody else.
pub proof fn lemma_subscriber_gets_what_is_pushed(
    sub: &mut FakeGattLink,
    uuid: Uuid128,
    at: usize,
    one: &mut FakeGattLink,
    a: Vec<u8>,
    two: &mut FakeGattLink,
    b: Vec<u8>,
    get1: &mut FakeGattLink,
    r1: Option<Vec<u8>>,
    get2: &mut FakeGattLink,
    r2: Option<Vec<u8>>,
    get3: &mut FakeGattLink,
    r3: Option<Vec<u8>>,
    other: Uuid128,
)
    requires
        call_ensures(FakeGattLink::subscribe, (sub, uuid), Ok(at)),
        *old(one) == *final(sub),
        call_ensures(FakeGattLink::push_notification, (one, uuid, a), ()),
        *old(two) == *final(one),
        call_ensures(FakeGattLink::push_notification, (two, other, b), ()),
        *old(get1) == *final(two),
        call_ensures(FakeGattLink::receive, (get1, at), r1),
        *old(get2) == *final(get1),
        call_ensures(FakeGattLink::receive, (get2, at), r2),
        *old(get3) == *final(get2),
        call_ensures(FakeGattLink::receive, (get3, at), r3),
    ensures
        r1 is Some && r1->0@ == a@,
        other == uuid ==> r2 is Some && r2->0@ == b@,
        other != uuid ==> r2 is None,
        r3 is None,
{
    let v0 = inbox_views(final(sub).inboxes@);
    let v1 = inbox_views(final(one).inboxes@);
    let v2 = inbox_views(final(two).inboxes@);
    assert(v0[at as int] == (uuid, Seq::<Seq<u8>>::empty()));
    assert(v1[at as int].1 =~= seq![a@]);
    if other == uuid {
        assert(v2[at as int].1 =~= seq![a@, b@]);
        assert(v2[at as int].1.drop_first() =~= seq![b@]);
        assert(seq![b@].drop_first() =~= Seq::<Seq<u8>>::empty());
    } else {
        assert(v2[at as int].1 =~= seq![a@]);
        assert(v2[at as int].1.drop_first() =~= Seq::<Seq<u8>>::empty());
    }
}

/// What is written to a characteristic that is there is on record, as it was written, behind
/// what was written before; what is not there takes nothing.
pub proof fn lemma_writes_are_on_record(
    l: &mut FakeGattLink,
    uuid: Uuid128,
    data: Vec<u8>,
    with_response: bool,
    r: Result<(), String>,
)
    requires
        call_ensures(FakeGattLink::write, (l, uuid, data, with_response), r),
    ensures
        r is Ok <==> old(l).present@.contains(uuid),
        r is Ok ==> final(l).writes@.len() == old(l).writes@.len() + 1 && final(l).writes@.last().uuid
            == uuid && final(l).writes@.last().data == data && final(l).writes@.last().with_response
            == with_response,
        r is Err ==> final(l).writes@ == old(l).writes@,
{
}

/// An error of the radio tells what was done, what the system says, and the number of the error
/// with its sign.
pub proof fn lemma_error_of_the_radio(context: &str, message: &str, code: i32, r: String)
    requires
        call_ensures(err, (context, message, code), r),
    ensures
        code >= 0 ==> r@ == context@ + ": "@ + message@ + " ("@ + text::decimal(code as nat) + ")"@,
        code < 0 ==> r@ == context@ + ": "@ + message@ + " ("@ + (seq!['-'] + text::decimal(
            (-code) as nat,
        )) + ")"@,
{
}

/// A search that finds the service and its characteristics leads to a link with just those, to
/// that phone; one that does not says what is missing.
pub proof fn lemma_search_leads_to_a_link(
    c: &WindowsBleCentral,
    addr: PeerAddr,
    found: ServiceSearch,
    r: Result<WindowsGattLink, String>,
)
    requires
        call_ensures(WindowsBleCentral::resolve, (c, addr, found), r),
    ensures
        r is Ok <==> found.services is Ok && found.services->Ok_0 > 0 && found.characteristics_ok,
        r is Ok ==> r->Ok_0.addr == addr && r->Ok_0.chars == found.characteristics,
        found.services is Err ==> r->Err_0@ == "vortex service not reachable: status "@
            + found.services->Err_0@,
        found.services == Ok::<usize, String>(0) ==> r->Err_0@
            == "vortex service absent on this device"@,
        found.services is Ok && found.services->Ok_0 > 0 && !found.characteristics_ok ==> r->Err_0@
            == "could not enumerate vortex characteristics"@,
{
}

/// What is said of a characteristic that is not there.
pub proof fn lemma_missing_characteristics_in_words(
    l: &LinuxGattLink,
    w: &WindowsGattLink,
    uuid: Uuid128,
    a: Result<GattSlot, String>,
    b: Result<usize, String>,
    f: &mut FakeGattLink,
    c: Result<usize, String>,
)
    requires
        call_ensures(LinuxGattLink::characteristic, (l, uuid), a),
        call_ensures(WindowsGattLink::characteristic, (w, uuid), b),
        call_ensures(FakeGattLink::subscribe, (f, uuid), c),
    ensures
        a is Err && uuid != l.audio_signal ==> a->Err_0@ == uuid_text(uuid as nat)
            + " is not a vortex characteristic"@,
        b is Err <==> !w.chars@.contains(uuid),
        b is Err ==> b->Err_0@ == "characteristic "@ + hex_fixed(uuid as nat, 32) + " not on this device"@,
        c is Err <==> !old(f).present@.contains(uuid),
        c is Err ==> c->Err_0@ == "no such characteristic"@,
{
    if b is Ok {
        assert(w.chars@[b->Ok_0 as int] == uuid);
    }
}

/// An advertisement with a section of service data that decodes comes from a phone, and the
/// first such section tells what it says; other sections do not count.
pub proof fn lemma_first_section_counts(sections: Seq<AdSection>, i: int, j: int)
    ensures
        is_vortex_section(sections, i) ==> 0 <= i < sections.len() && sections[i].data_type == 0x21
            && sections[i].payload is Some,
        is_vortex_section(sections, i) && 0 <= j < i ==> sections[j].data_type != 0x21
            || sections[j].payload is None,
        is_vortex_section(sections, i) && is_vortex_section(sections, j) ==> i == j,
        0 <= i < sections.len() && sections[i].data_type == 0x21 && sections[i].payload is Some && (
        forall|k: int| 0 <= k < i ==> (#[trigger] sections[k]).data_type != 0x21) ==> is_vortex_section(
            sections,
            i,
        ),
{
}

/// An identifier is written with its highest digit first, in five groups.
pub proof fn lemma_text_of_an_identifier(n: nat)
    ensures
        uuid_text(n).len() == 36,
        uuid_text(n)[8] == '-' && uuid_text(n)[13] == '-' && uuid_text(n)[18] == '-' && uuid_text(n)[23]
            == '-',
        uuid_text(n)[35] == "0123456789abcdef"@[(n % 16) as int],
        uuid_text(n)[34] == "0123456789abcdef"@[(n / 16 % 16) as int],
{
    reveal_strlit("0123456789abcdef");
    let d = "0123456789abcdef"@;
    assert forall|k: int| 0 <= k < 16 implies #[trigger] d[k] == codec::hex_digit(k) by {}
    lemma_hex_fixed_len(n, 32);
    lemma_hex_fixed_len(n / 16, 31);
    lemma_hex_fixed_len(n / 16 / 16, 30);
    let h = hex_fixed(n, 32);
    assert(h[31] == codec::hex_digit((n % 16) as int));
    assert(hex_fixed(n / 16, 31)[30] == codec::hex_digit((n / 16 % 16) as int));
    assert(h[30] == hex_fixed(n / 16, 31)[30]);
    assert(uuid_text(n)[35] == h.subrange(20, 32)[11]);
    assert(uuid_text(n)[34] == h.subrange(20, 32)[10]);
}

proof fn lemma_hex_fixed_len(n: nat, width: nat)
    ensures
        hex_fixed(n, width).len() == width,
    decreases width,
{
    if width > 0 {
        lemma_hex_fixed_len(n / 16, (width - 1) as nat);
    }
}

/// A link without a radio is up once it is made, has what it was made with, and talks to an
/// address of its own.
pub proof fn lemma_fake_link(
    present: Vec<Uuid128>,
    r: FakeGattLink,
    l: &FakeGattLink,
    up: bool,
    at: PeerAddr,
)
    requires
        call_ensures(FakeGattLink::new, (present,), r),
        *l == r,
        call_ensures(FakeGattLink::is_connected, (l,), up),
        call_ensures(FakeGattLink::peer, (l,), at),
    ensures
        up,
        l.present == present,
        l.writes@.len() == 0 && l.reads@.len() == 0 && l.inboxes@.len() == 0,
        (at.0)@ == seq![0xfau8, 0xce, 0, 0, 0, 1],
{
}

} // verus!
