use vortex::arbiter::{Arbiter, Claim};
use vortex::ble_link::{
    state_write_means_link_gone, BeatAction, BusyNote, LinkLoop, LoopAction, LoopEvent, StateBeat,
};
use vortex::ble_portable::{
    announce_session, check_version, pair_by_scan, scan_hit, Attempt, AttemptAction, AttemptEvent,
    Beat, LoopAction as PortableAction, LoopEvent as PortableEvent, PortableBeat, PortableLoop,
    ScanHit,
};
use vortex::ble_scan::{
    other_peers, presence_buckets, DiscoveryHealth, HealthNote, PeerCandidate, PresenceWait,
    Sightings, TokenOwners, WaitAction, WaitEvent,
};
use vortex::platform::{AdvCandidate, AdvPayload, PeerAddr};

const A: [u8; 32] = [1; 32];
const B: [u8; 32] = [2; 32];
const HERE: [u8; 6] = [0xAA; 6];
const THERE: [u8; 6] = [0xBB; 6];

fn rest_of(a: &LoopAction) -> Option<(u64, bool)> {
    match a {
        LoopAction::Rest { ms, nudgeable, .. } => Some((*ms, *nudgeable)),
        _ => None,
    }
}

/// Steps a fresh loop to the point where the phone answered at `addr`.
fn answered(addr: [u8; 6], peer: [u8; 32], arb: &mut Arbiter) -> LinkLoop {
    let mut l = LinkLoop::new();
    assert!(matches!(l.step(LoopEvent::Rested, arb), LoopAction::ListPeers));
    assert!(matches!(l.step(LoopEvent::Peers(vec![A, B]), arb), LoopAction::AskPower));
    assert!(matches!(
        l.step(LoopEvent::Powered(true), arb),
        LoopAction::AskSwitch { after_ms: 0 }
    ));
    assert!(matches!(
        l.step(LoopEvent::SwitchIdle(true), arb),
        LoopAction::AwaitPresence { forget: None }
    ));
    assert!(matches!(
        l.step(LoopEvent::Presence(Some((addr, peer))), arb),
        LoopAction::Dial { addr: a, peer: p, limit_ms: 8_000 } if a == addr && p == peer
    ));
    assert!(matches!(
        l.step(LoopEvent::Dialled { addr, peer, ok: true }, arb),
        LoopAction::AskSignal
    ));
    l
}

#[test]
fn a_round_leads_to_a_session() {
    let mut arb = Arbiter::new();
    let mut l = answered(HERE, A, &mut arb);
    assert!(matches!(
        l.step(LoopEvent::Signal(true), &mut arb),
        LoopAction::AskTrust { peer } if peer == A
    ));
    assert!(matches!(
        l.step(LoopEvent::Trusted(true), &mut arb),
        LoopAction::Handshake { peer } if peer == A
    ));
    assert!(matches!(
        l.step(LoopEvent::HandshakeDone { ciphers: true }, &mut arb),
        LoopAction::RunSession { peer, busy: None } if peer == A
    ));
    assert!(arb.is_active(&A));
    assert!(arb.is_connected(&A));
    assert_eq!(rest_of(&l.step(LoopEvent::SessionEnded, &mut arb)), Some((500, false)));
    // The next round dials the remembered address first.
    l.step(LoopEvent::Rested, &mut arb);
    l.step(LoopEvent::Peers(vec![A]), &mut arb);
    l.step(LoopEvent::Powered(true), &mut arb);
    assert!(matches!(
        l.step(LoopEvent::SwitchIdle(true), &mut arb),
        LoopAction::FastDial { addr, peer, limit_ms: 3_000 } if addr == HERE && peer == A
    ));
    assert!(matches!(
        l.step(LoopEvent::FastDialled(false), &mut arb),
        LoopAction::AwaitPresence { forget: Some(a) } if a == HERE
    ));
}

#[test]
fn a_second_peer_is_connected_but_not_active() {
    let mut arb = Arbiter::new();
    arb.claim(&B);
    let mut l = answered(HERE, A, &mut arb);
    l.step(LoopEvent::Signal(true), &mut arb);
    l.step(LoopEvent::Trusted(true), &mut arb);
    assert!(matches!(
        l.step(LoopEvent::HandshakeDone { ciphers: true }, &mut arb),
        LoopAction::RunSession { busy: Some(b), .. } if b == B
    ));
    assert!(arb.is_active(&B));
    assert_eq!(
        rest_of(&l.step(LoopEvent::HandshakeDone { ciphers: false }, &mut arb)),
        Some((5_000, false))
    );
}

#[test]
fn a_switch_drops_the_shortcut() {
    let mut arb = Arbiter::new();
    let mut l = answered(HERE, A, &mut arb);
    arb.force_activate(&B);
    l.step(LoopEvent::Peers(vec![A, B]), &mut arb);
    assert!(matches!(
        l.step(LoopEvent::SwitchIdle(true), &mut arb),
        LoopAction::AwaitPresence { forget: None }
    ));
}

#[test]
fn without_a_peer_the_loop_says_so_once() {
    let mut arb = Arbiter::new();
    let mut l = LinkLoop::new();
    assert!(matches!(
        l.step(LoopEvent::Peers(Vec::new()), &mut arb),
        LoopAction::Rest { ms: 10_000, announce: true, .. }
    ));
    assert!(matches!(
        l.step(LoopEvent::Peers(Vec::new()), &mut arb),
        LoopAction::Rest { ms: 10_000, announce: false, .. }
    ));
}

#[test]
fn an_adapter_that_stays_off_is_waited_for() {
    let mut arb = Arbiter::new();
    let mut l = LinkLoop::new();
    assert!(matches!(l.step(LoopEvent::Powered(false), &mut arb), LoopAction::PowerOn));
    assert!(matches!(
        l.step(LoopEvent::PoweredOn(true), &mut arb),
        LoopAction::AskSwitch { after_ms: 0 }
    ));
    assert_eq!(rest_of(&l.step(LoopEvent::PoweredOn(false), &mut arb)), Some((30_000, true)));
    assert_eq!(rest_of(&l.step(LoopEvent::Signal(false), &mut arb)), Some((30_000, false)));
}

#[test]
fn an_audio_switch_is_waited_for_but_not_for_ever() {
    let mut arb = Arbiter::new();
    let mut l = LinkLoop::new();
    l.step(LoopEvent::Peers(vec![A]), &mut arb);
    let mut waits = 0;
    while let LoopAction::AskSwitch { after_ms } = l.step(LoopEvent::SwitchIdle(false), &mut arb) {
        assert_eq!(after_ms, 400);
        waits += 1;
    }
    assert_eq!(waits, 50);
}

#[test]
fn failed_dials_escalate_and_drop_the_address() {
    let mut arb = Arbiter::new();
    let mut l = answered(HERE, A, &mut arb);
    for _ in 0..5 {
        assert!(matches!(
            l.step(LoopEvent::Dialled { addr: HERE, peer: A, ok: false }, &mut arb),
            LoopAction::Rest { ms: 1_000, forget: Some(a), .. } if a == HERE
        ));
    }
    assert_eq!(
        rest_of(&l.step(LoopEvent::Dialled { addr: HERE, peer: A, ok: false }, &mut arb)),
        Some((5_000, false))
    );
    assert_eq!(rest_of(&l.step(LoopEvent::Presence(None), &mut arb)), Some((1_000, false)));
    assert!(matches!(
        l.step(LoopEvent::SwitchIdle(true), &mut arb),
        LoopAction::AwaitPresence { forget: None }
    ));
}

#[test]
fn a_peer_that_is_not_trusted_any_more_is_dropped() {
    let mut arb = Arbiter::new();
    let mut l = LinkLoop::new();
    l.step(LoopEvent::Peers(vec![B]), &mut arb);
    assert!(matches!(
        l.step(LoopEvent::Dialled { addr: THERE, peer: A, ok: true }, &mut arb),
        LoopAction::ListPeers
    ));
    // Forgotten while the dial was under way: the round ends before the handshake.
    let mut l = answered(HERE, A, &mut arb);
    assert!(matches!(
        l.step(LoopEvent::Signal(true), &mut arb),
        LoopAction::AskTrust { peer } if peer == A
    ));
    assert!(matches!(l.step(LoopEvent::Trusted(false), &mut arb), LoopAction::ListPeers));
    assert!(!arb.is_connected(&A));
}

#[test]
fn failed_handshakes_back_off() {
    let mut arb = Arbiter::new();
    let mut l = LinkLoop::new();
    for ms in [3_000, 10_000, 30_000, 60_000, 60_000] {
        assert_eq!(rest_of(&l.step(LoopEvent::HandshakeFailed, &mut arb)), Some((ms, true)));
    }
    l.step(LoopEvent::HandshakeDone { ciphers: true }, &mut arb);
    assert_eq!(rest_of(&l.step(LoopEvent::HandshakeFailed, &mut arb)), Some((3_000, true)));
}

#[test]
fn a_busy_bearer_is_no_lost_link() {
    assert!(state_write_means_link_gone("org.bluez.Error.NotConnected: Not Connected"));
    assert!(state_write_means_link_gone("Method \"X\" doesn't matter: UnknownObject"));
    assert!(state_write_means_link_gone("device DISCONNECTED"));
    assert!(state_write_means_link_gone("GATT services not present or removed"));
    assert!(!state_write_means_link_gone("Bluetooth operation in progress: In Progress"));
    assert!(!state_write_means_link_gone(""));
    let mut beat = StateBeat::new();
    assert_eq!(
        beat.on_write(Some("In Progress")),
        BeatAction::Busy { note: BusyNote::First, ms: 1_500 }
    );
    for _ in 0..18 {
        assert_eq!(
            beat.on_write(Some("In Progress")),
            BeatAction::Busy { note: BusyNote::Silent, ms: 1_500 }
        );
    }
    assert_eq!(
        beat.on_write(Some("In Progress")),
        BeatAction::Busy { note: BusyNote::Long, ms: 1_500 }
    );
    assert_eq!(beat.on_write(None), BeatAction::Alive { first: true, ms: 12_000 });
    assert_eq!(beat.on_write(None), BeatAction::Alive { first: false, ms: 12_000 });
}

#[test]
fn six_failures_in_a_row_end_a_session() {
    let mut beat = StateBeat::new();
    for _ in 0..5 {
        assert_eq!(beat.on_write(Some("not connected")), BeatAction::Retry { ms: 500 });
    }
    beat.on_write(None);
    for _ in 0..5 {
        assert_eq!(beat.on_write(Some("not connected")), BeatAction::Retry { ms: 500 });
    }
    assert_eq!(beat.on_write(Some("not connected")), BeatAction::Stop);
    let mut portable = PortableBeat::new();
    for _ in 0..5 {
        assert_eq!(portable.on_write(false), Beat::Retry { ms: 2_000 });
    }
    assert_eq!(portable.on_write(true), Beat::Alive { ms: 12_000 });
    for _ in 0..5 {
        portable.on_write(false);
    }
    assert_eq!(portable.on_write(false), Beat::GiveUp);
}

#[test]
fn tokens_count_in_five_buckets() {
    assert_eq!(presence_buckets(100), vec![98, 99, 100, 101, 102]);
    assert_eq!(presence_buckets(1), vec![u64::MAX, 0, 1, 2, 3]);
    assert_eq!(presence_buckets(0), vec![u64::MAX - 1, u64::MAX, 0, 1, 2]);
}

#[test]
fn a_token_names_its_owner() {
    let mut t = TokenOwners::new();
    t.insert([7; 8], A);
    t.insert([8; 8], A);
    t.insert([8; 8], B);
    assert_eq!(t.presence_owner(true, &[7; 8]), Some(A));
    assert_eq!(t.presence_owner(true, &[8; 8]), Some(B));
    assert_eq!(t.presence_owner(true, &[9; 8]), None);
    assert_eq!(t.presence_owner(false, &[7; 8]), None);
}

fn seen(peer: [u8; 32], rssi: i16) -> PeerCandidate {
    PeerCandidate { peer_static_pub: peer, name: None, rssi }
}

#[test]
fn the_strongest_sighting_of_each_peer_counts() {
    let mut s = Sightings::new();
    s.note(seen(A, -80));
    s.note(seen(B, -60));
    s.note(seen(A, -50));
    s.note(seen(B, -90));
    let ranked: Vec<([u8; 32], i16)> =
        s.ranked().iter().map(|c| (c.peer_static_pub, c.rssi)).collect();
    assert_eq!(ranked, vec![(A, -50), (B, -60)]);
}

#[test]
fn the_excluded_peer_is_left_out() {
    assert_eq!(other_peers(&vec![A, B], Some(A)), vec![B]);
    assert_eq!(other_peers(&vec![A, B], None), vec![A, B]);
}

#[test]
fn discovery_is_mentioned_when_it_breaks_and_when_it_works_again() {
    let mut h = DiscoveryHealth { rounds: 0 };
    assert_eq!(h.note_discovery_health(true), HealthNote::Silent);
    assert_eq!(h.note_discovery_health(false), HealthNote::Wedged);
    assert_eq!(h.note_discovery_health(false), HealthNote::Silent);
    assert_eq!(h.not_discovering_rounds(), 2);
    assert_eq!(h.note_discovery_health(true), HealthNote::Recovered);
    assert_eq!(h.not_discovering_rounds(), 0);
}

#[test]
fn a_wait_scans_watches_and_finds() {
    let mut w = PresenceWait::new();
    assert!(matches!(
        w.step(WaitEvent::Begin { trusted: false }),
        WaitAction::GiveUp { after_secs: 10 }
    ));
    assert!(matches!(w.step(WaitEvent::Begin { trusted: true }), WaitAction::Scan { ms: 15_000 }));
    assert!(matches!(
        w.step(WaitEvent::Scanned { found: None, elapsed_ms: 0 }),
        WaitAction::Arm
    ));
    assert!(matches!(w.step(WaitEvent::Armed(true)), WaitAction::Watch));
    assert!(matches!(w.step(WaitEvent::SeenOther), WaitAction::Watch));
    // A device that no token vouches for is looked at once more.
    assert!(matches!(
        w.step(WaitEvent::Seen { addr: HERE, owner: None }),
        WaitAction::Scan { ms: 15_000 }
    ));
    assert!(matches!(
        w.step(WaitEvent::Scanned { found: None, elapsed_ms: 0 }),
        WaitAction::Watch
    ));
    assert!(matches!(
        w.step(WaitEvent::Seen { addr: HERE, owner: Some(A) }),
        WaitAction::Found(a, p) if a == HERE && p == A
    ));
    assert!(matches!(w.step(WaitEvent::Nudged), WaitAction::GiveUp { after_secs: 0 }));
    assert!(matches!(w.step(WaitEvent::Over), WaitAction::GiveUp { after_secs: 0 }));
}

#[test]
fn a_refused_watch_leads_to_scans_with_growing_rests() {
    let mut w = PresenceWait::new();
    w.step(WaitEvent::Begin { trusted: true });
    w.step(WaitEvent::Scanned { found: None, elapsed_ms: 0 });
    assert!(matches!(w.step(WaitEvent::Armed(false)), WaitAction::Scan { ms: 15_000 }));
    for rest in [5, 10, 20, 45, 45] {
        assert!(matches!(
            w.step(WaitEvent::Scanned { found: None, elapsed_ms: 300_000 }),
            WaitAction::Rest { secs } if secs == rest
        ));
        assert!(matches!(w.step(WaitEvent::Rested), WaitAction::Scan { ms: 15_000 }));
    }
    assert!(matches!(
        w.step(WaitEvent::Scanned { found: None, elapsed_ms: 300_001 }),
        WaitAction::GiveUp { after_secs: 0 }
    ));
    // The next wait does not ask for the watch again.
    w.step(WaitEvent::Begin { trusted: true });
    assert!(matches!(
        w.step(WaitEvent::Scanned { found: None, elapsed_ms: 0 }),
        WaitAction::Scan { ms: 15_000 }
    ));
    assert!(matches!(
        w.step(WaitEvent::Scanned { found: Some((HERE, A)), elapsed_ms: 0 }),
        WaitAction::Found(a, p) if a == HERE && p == A
    ));
}

#[test]
fn the_portable_loop_rests_longer_after_each_failure() {
    let mut l = PortableLoop::new();
    assert_eq!(l.step(PortableEvent::Woken), PortableAction::PickPeer);
    assert_eq!(
        l.step(PortableEvent::Peer { found: false }),
        PortableAction::Rest { secs: 10, say: true }
    );
    assert_eq!(
        l.step(PortableEvent::Peer { found: false }),
        PortableAction::Rest { secs: 10, say: false }
    );
    assert_eq!(l.step(PortableEvent::Peer { found: true }), PortableAction::AskRadio);
    assert_eq!(
        l.step(PortableEvent::Radio { ready: false }),
        PortableAction::Rest { secs: 10, say: false }
    );
    assert_eq!(l.step(PortableEvent::Radio { ready: true }), PortableAction::Attempt);
    assert_eq!(l.step(PortableEvent::Established), PortableAction::Note);
    assert!(l.link_is_up());
    for secs in [5, 15, 30, 60, 60] {
        assert_eq!(
            l.step(PortableEvent::Ended { closed: false }),
            PortableAction::WindDown { secs }
        );
    }
    assert!(!l.link_is_up());
    assert_eq!(
        l.step(PortableEvent::Ended { closed: true }),
        PortableAction::WindDown { secs: 2 }
    );
}

#[test]
fn a_try_goes_through_every_bonded_address() {
    let one = PeerAddr([1; 6]);
    let two = PeerAddr([2; 6]);
    let (mut t, first) = Attempt::begin();
    assert_eq!(first, AttemptAction::ListBonded);
    assert_eq!(
        t.step(AttemptEvent::Bonded(Ok(vec![one, two]))),
        AttemptAction::Connect(one)
    );
    assert_eq!(
        t.step(AttemptEvent::Connected(Err("timeout".to_string()))),
        AttemptAction::Connect(two)
    );
    assert_eq!(t.step(AttemptEvent::Connected(Ok(()))), AttemptAction::LoadCounter);
    assert_eq!(t.step(AttemptEvent::Bumped), AttemptAction::Ignore);
    assert_eq!(t.step(AttemptEvent::Counter(Some(9))), AttemptAction::Handshake { local: 9 });
    assert_eq!(
        t.step(AttemptEvent::Ik(Err("bad tag".to_string()))),
        AttemptAction::Scan { ms: 8_000 }
    );
    // The bonded addresses were stale: what the scan finds is tried as well.
    let three = PeerAddr([3; 6]);
    assert_eq!(t.step(AttemptEvent::Scanned(Ok(Some(three)))), AttemptAction::Connect(three));
    assert_eq!(
        t.step(AttemptEvent::Connected(Err("timeout".to_string()))),
        AttemptAction::Finish(Err("03:03:03:03:03:03: timeout".to_string()))
    );
}

#[test]
fn a_try_scans_where_nothing_is_bonded() {
    let one = PeerAddr([1; 6]);
    let (mut t, _) = Attempt::begin();
    assert_eq!(
        t.step(AttemptEvent::Bonded(Ok(Vec::new()))),
        AttemptAction::Scan { ms: 8_000 }
    );
    assert_eq!(t.step(AttemptEvent::Scanned(Ok(Some(one)))), AttemptAction::Connect(one));
    t.step(AttemptEvent::Connected(Ok(())));
    assert_eq!(t.step(AttemptEvent::Counter(None)), AttemptAction::Handshake { local: 0 });
    assert_eq!(
        t.step(AttemptEvent::Ik(Ok((4, true)))),
        AttemptAction::Bump { seen: 4, rollback: false }
    );
    assert_eq!(t.step(AttemptEvent::Bumped), AttemptAction::Listen);
    assert_eq!(
        t.step(AttemptEvent::BeatGaveUp),
        AttemptAction::Finish(Err(
            "listener: state beat gave up — the link is dead".to_string()
        ))
    );
    let (mut t, _) = Attempt::begin();
    t.step(AttemptEvent::Bonded(Err("no adapter".to_string())));
    assert_eq!(
        t.step(AttemptEvent::Scanned(Ok(None))),
        AttemptAction::Finish(Err("no Vortex advertisement in range".to_string()))
    );
}

#[test]
fn a_counter_behind_ours_is_marked() {
    let (mut t, _) = Attempt::begin();
    t.step(AttemptEvent::Bonded(Ok(vec![PeerAddr([1; 6])])));
    t.step(AttemptEvent::Connected(Ok(())));
    t.step(AttemptEvent::Counter(Some(5)));
    assert_eq!(
        t.step(AttemptEvent::Ik(Ok((4, false)))),
        AttemptAction::Bump { seen: 4, rollback: true }
    );
    assert_eq!(
        t.step(AttemptEvent::Bumped),
        AttemptAction::Finish(Err("IK produced no transport ciphers".to_string()))
    );
}

#[test]
fn a_session_is_announced_to_the_arbiter() {
    let mut arb = Arbiter::new();
    assert_eq!(announce_session(&mut arb, &A), Claim::Granted);
    assert_eq!(announce_session(&mut arb, &B), Claim::Busy { current: A });
    assert!(arb.is_connected(&B));
}

fn adv(pairable: bool) -> AdvCandidate {
    AdvCandidate {
        addr: PeerAddr([0xAB; 6]),
        payload: AdvPayload { pairable, trusted_presence: !pairable, payload_8: [0x0f; 8] },
        rssi: Some(-40),
        local_name: Some("Pixel".to_string()),
    }
}

#[test]
fn pairing_takes_a_phone_whose_window_is_open() {
    assert_eq!(pair_by_scan(true, &Ok(Some(adv(true)))), Ok(PeerAddr([0xAB; 6])));
    assert_eq!(
        pair_by_scan(false, &Ok(Some(adv(true)))),
        Err("no Bluetooth LE radio available".to_string())
    );
    assert_eq!(
        pair_by_scan(true, &Ok(None)),
        Err("no phone advertising a pairing window was found".to_string())
    );
    assert_eq!(pair_by_scan(true, &Err("x".to_string())), Err("x".to_string()));
    assert_eq!(
        pair_by_scan(true, &Ok(Some(adv(false)))),
        Err("the phone found is not in pairing mode — open Vortex on the phone and tap Pair"
            .to_string())
    );
}

#[test]
fn the_radar_shows_phones_whose_window_is_open() {
    assert_eq!(
        scan_hit(adv(true)),
        Some(ScanHit {
            addr: "AB:AB:AB:AB:AB:AB".to_string(),
            rssi: -40,
            instance: "0f0f0f0f0f0f0f0f".to_string(),
            name: Some("Pixel".to_string()),
        })
    );
    assert_eq!(scan_hit(adv(false)), None);
}

#[test]
fn the_protocol_version_is_checked() {
    assert_eq!(check_version(&Ok(vec![1, 9]), 1), Ok(()));
    assert_eq!(
        check_version(&Ok(vec![2]), 1),
        Err("phone speaks protocol version Some(2), this build speaks 1".to_string())
    );
    assert_eq!(
        check_version(&Ok(Vec::new()), 1),
        Err("phone speaks protocol version None, this build speaks 1".to_string())
    );
    assert_eq!(
        check_version(&Err("x".to_string()), 1),
        Err("capability read failed: x".to_string())
    );
}

#[test]
fn a_link_is_kept_to_the_owner_or_else_to_the_first() {
    let mut arb = Arbiter::new();
    assert_eq!(arb.preferred_peer(&vec![]), None);
    assert_eq!(arb.preferred_peer(&vec![A, B]), Some(0));
    arb.claim(&B);
    assert_eq!(arb.preferred_peer(&vec![A, B]), Some(1));
    assert_eq!(arb.preferred_peer(&vec![A]), Some(0));
    assert_eq!(arb.preferred_peer(&vec![]), None);
}
