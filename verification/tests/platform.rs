use vortex::platform::gatt::{FakeGattLink, GattLink};
use vortex::platform::{quoted_command, PeerAddr};

/// The byte order has no error path: a mirrored address is a valid-looking
/// address that nothing answers on.
#[test]
fn u48_round_trips_and_keeps_printed_order() {
    let a = PeerAddr([0xAA, 0xBB, 0xCC, 0xDD, 0xEE, 0xFF]);
    assert_eq!(a.to_u48(), 0x0000_AABB_CCDD_EEFF);
    assert_eq!(PeerAddr::from_u48(0x0000_AABB_CCDD_EEFF), a);
    assert_eq!(a.to_text(), "AA:BB:CC:DD:EE:FF");
}

#[test]
fn the_high_two_bytes_are_dropped() {
    assert_eq!(
        PeerAddr::from_u48(0xFFFF_0011_2233_4455),
        PeerAddr([0x00, 0x11, 0x22, 0x33, 0x44, 0x55]),
    );
}

#[test]
fn a_random_address_survives_a_round_trip() {
    for seed in [0u64, 1, 0x0000_0102_0304_0506, 0x0000_FFFF_FFFF_FFFF] {
        assert_eq!(PeerAddr::from_u48(seed).to_u48(), seed);
    }
}

#[test]
fn a_command_line_quotes_a_path_with_spaces() {
    assert_eq!(
        quoted_command("C:\\Program Files\\Vortex\\vortex.exe"),
        "\"C:\\Program Files\\Vortex\\vortex.exe\""
    );
}

#[test]
fn quoting_is_idempotent_and_unconditional() {
    assert_eq!(quoted_command("C:\\v.exe"), "\"C:\\v.exe\"");
    // An already-quoted path must not gain a second pair.
    let once = quoted_command("C:\\v.exe");
    assert_eq!(quoted_command(&once), once);
}

const PAIRING: u128 = 0x0000_0000_0000_0000_0000_0000_0000_0001;
const CAPABILITY: u128 = 0x0000_0000_0000_0000_0000_0000_0000_0002;
const ABSENT: u128 = 0x0000_0000_0000_0000_0000_0000_0000_0099;

/// An absent characteristic must be reportable before a write is attempted.
#[test]
fn an_absent_characteristic_is_visible_and_unwritable() {
    let mut link = FakeGattLink::new(vec![PAIRING]);
    assert!(link.has(PAIRING));
    assert!(!link.has(ABSENT));
    assert!(link.write(ABSENT, b"x".to_vec(), false).is_err());
    assert!(link.writes.is_empty());
}

/// A round of the shape that pairing uses: read the capability, write a frame
/// without response, receive the notification that it provokes.
#[test]
fn a_caller_can_drive_the_link_through_the_trait() {
    let mut fake = FakeGattLink::new(vec![PAIRING, CAPABILITY]);
    fake.reads.push((CAPABILITY, vec![0x01, 0x00, 0x00]));
    assert_eq!(fake.read(CAPABILITY).unwrap(), vec![0x01, 0x00, 0x00]);
    // A second script for one characteristic replaces the first.
    fake.reads.push((PAIRING, vec![7]));
    fake.reads.push((CAPABILITY, vec![0x02]));
    assert_eq!(fake.read(CAPABILITY).unwrap(), vec![0x02]);
    assert_eq!(fake.read(PAIRING).unwrap(), vec![7]);

    let inbox = fake.subscribe(PAIRING).unwrap();
    fake.write(PAIRING, b"msg1".to_vec(), false).unwrap();

    // The peer answers on the characteristic that was written to.
    fake.push_notification(PAIRING, b"msg2".to_vec());
    assert_eq!(fake.receive(inbox).unwrap(), b"msg2".to_vec());

    assert_eq!(fake.writes.len(), 1);
    assert_eq!(fake.writes[0].uuid, PAIRING);
    assert_eq!(fake.writes[0].data, b"msg1".to_vec());
    assert!(!fake.writes[0].with_response);
}

fn shareable<T: Send + Sync>(link: T) -> T {
    link
}

/// A link can be handed to whoever holds the session, and still says that it is
/// connected.
#[test]
fn the_link_survives_being_shared_across_tasks() {
    let mut link = shareable(FakeGattLink::new(vec![PAIRING]));
    link.write(PAIRING, b"from another task".to_vec(), false).unwrap();
    assert!(link.is_connected());
}

#[test]
fn a_notification_reaches_its_subscribers_alone() {
    let mut fake = FakeGattLink::new(vec![PAIRING, CAPABILITY]);
    let a = fake.subscribe(PAIRING).unwrap();
    let b = fake.subscribe(CAPABILITY).unwrap();
    let c = fake.subscribe(PAIRING).unwrap();
    assert_eq!(fake.subscribe(ABSENT), Err("no such characteristic".to_string()));
    fake.push_notification(PAIRING, vec![1]);
    fake.push_notification(PAIRING, vec![2]);
    assert_eq!(fake.receive(a), Some(vec![1]));
    assert_eq!(fake.receive(a), Some(vec![2]));
    assert_eq!(fake.receive(a), None);
    assert_eq!(fake.receive(b), None);
    assert_eq!(fake.receive(c), Some(vec![1]));
    assert_eq!(fake.receive(99), None);
    assert!(fake.disconnect().is_ok());
    assert_eq!(fake.peer(), PeerAddr([0xFA, 0xCE, 0x00, 0x00, 0x00, 0x01]));
    assert_eq!(fake.read(ABSENT), Err("nothing scripted for this read".to_string()));
}
