use vortex::arbiter::{Arbiter, Claim};

fn peer(n: u8) -> [u8; 32] {
    [n; 32]
}

#[test]
fn ownership_lifecycle() {
    let mut arb = Arbiter::new();
    let a = peer(1);
    let b = peer(2);

    assert_eq!(arb.claim(&a), Claim::Granted);
    assert!(arb.is_active(&a));
    // Re-claiming by the owner changes nothing: a reconnect must not be mistaken
    // for a competing peer.
    assert_eq!(arb.claim(&a), Claim::Granted);
    // A second peer is refused, and told who holds it.
    assert_eq!(arb.claim(&b), Claim::Busy { current: a });

    // Losing the transport does not lose ownership.
    arb.note_connected(&a);
    arb.note_disconnected(&a);
    assert!(arb.is_active(&a));
    assert!(!arb.is_connected(&a));

    // An explicit switch displaces the owner and names the displaced peer.
    assert_eq!(arb.force_activate(&b), Some(a));
    assert!(arb.is_active(&b));
    assert!(!arb.is_active(&a));

    // Releasing a peer that does not own anything does nothing.
    arb.release(&a);
    assert!(arb.is_active(&b));
    arb.release(&b);
    assert_eq!(arb.active(), None);
}

#[test]
fn switch_window_expires_on_read() {
    let mut arb = Arbiter::new();
    let now = 1_000_000u64;
    arb.begin_switch(now, 60 * 1000);
    assert!(arb.is_switching(now));
    arb.end_switch();
    assert!(!arb.is_switching(now));
    // A window of no length is already over, and asking closes it.
    arb.begin_switch(now, 0);
    assert!(!arb.is_switching(now));
}
