use vortex::arbiter::{Arbiter, Claim};
use vortex::ble_scan::PeerCandidate;
use vortex::earbuds::{
    acceptance, after_switch, errand_route, find_peer, first_run_adoption, needs_a2dp_repair,
    open_bluetooth_settings, persist_peer_earbuds, reclaim_target, resolve_peer, toggle_earbuds,
    wants_detection, Acceptance, AfterSwitch, EarbudsReport, Errand, FrameRace, Lane, NetAction,
    ResumeWatch, SafetyNet, SavedEarbuds, SmartSwitch, Surroundings, SwitchState, Toggle, Verdict,
    Write,
};
use vortex::lan::{HostAddr, LanCandidate};
use vortex::pairing::{
    activate, forget_all, forget_peer, pairing_result, release_body, switch_peer, switch_rows,
    switch_scanned, wait_for_quiet, Activation, PeerAddrs, Revoke, RevokeStep, SwitchOutcome,
};
use vortex::platform::PeerAddr;
use vortex::storage::peers::TrustedPeer;
use vortex::storage::StorageError;

const A: [u8; 32] = [1; 32];
const B: [u8; 32] = [2; 32];

fn trusted(key: [u8; 32]) -> TrustedPeer {
    TrustedPeer { peer_static_pub: key, prs: [0; 32], paired_at: 0, peer_name: None }
}

fn buds() -> SavedEarbuds {
    SavedEarbuds { address: "AA:BB:CC:DD:EE:FF".to_string(), name: "Buds".to_string() }
}

#[test]
fn either_link_suffices() {
    for (first, second) in [(Lane::Lan, Lane::Ble), (Lane::Ble, Lane::Lan)] {
        let (mut race, v) = FrameRace::begin(true, true);
        assert_eq!(v, Verdict::Open);
        assert_eq!(race.step(first, Write::Failed("a".to_string())), Verdict::Open);
        assert_eq!(race.step(second, Write::Sent), Verdict::Sent);
        let (mut race, _) = FrameRace::begin(true, true);
        assert_eq!(race.step(first, Write::Sent), Verdict::Sent);
        assert_eq!(race.step(second, Write::Failed("late".to_string())), Verdict::Open);
    }
}

#[test]
fn a_request_fails_when_every_link_fails() {
    let (mut race, _) = FrameRace::begin(true, true);
    race.step(Lane::Ble, Write::Failed("x".to_string()));
    assert_eq!(
        race.step(Lane::Lan, Write::Crashed("y".to_string())),
        Verdict::Failed("both failed (ble: x; lan: task: y)".to_string())
    );
    let (mut race, _) = FrameRace::begin(true, false);
    assert_eq!(
        race.step(Lane::Lan, Write::Failed("x".to_string())),
        Verdict::Failed("x".to_string())
    );
    let (_, v) = FrameRace::begin(false, false);
    assert_eq!(v, Verdict::Failed("no active session".to_string()));
}

#[test]
fn a_call_keeps_the_headset() {
    assert_eq!(acceptance(true), Acceptance::RejectInCall);
    assert_eq!(acceptance(false), Acceptance::Allow);
    assert!(needs_a2dp_repair(true, false, false));
    assert!(!needs_a2dp_repair(true, true, false));
    assert!(!needs_a2dp_repair(true, false, true));
    assert!(!needs_a2dp_repair(false, false, false));
}

#[test]
fn earbuds_that_a_peer_reports_are_adopted_once() {
    let report = |connected: bool, address: &str| {
        Some(EarbudsReport {
            address: address.to_string(),
            name: "Buds".to_string(),
            connected,
        })
    };
    assert_eq!(persist_peer_earbuds(report(true, "AA:BB:CC:DD:EE:FF"), false), Some(buds()));
    assert_eq!(persist_peer_earbuds(report(true, "AA:BB:CC:DD:EE:FF"), true), None);
    assert_eq!(persist_peer_earbuds(report(false, "AA:BB:CC:DD:EE:FF"), false), None);
    assert_eq!(persist_peer_earbuds(report(true, ""), false), None);
    assert_eq!(persist_peer_earbuds(None, false), None);
}

#[test]
fn the_first_start_looks_for_earbuds_once() {
    assert!(wants_detection(false, false));
    assert!(!wants_detection(true, false));
    assert!(!wants_detection(false, true));
    let a = first_run_adoption(false, false, Some(buds()));
    assert_eq!((a.save, a.mark_done), (Some(buds()), true));
    let a = first_run_adoption(false, false, None);
    assert_eq!((a.save, a.mark_done), (None, true));
    let a = first_run_adoption(false, true, Some(buds()));
    assert_eq!((a.save, a.mark_done), (None, true));
    let a = first_run_adoption(true, false, Some(buds()));
    assert_eq!((a.save, a.mark_done), (None, false));
}

#[test]
fn the_end_of_a_hand_over_is_seen_with_its_address() {
    let mut w = ResumeWatch::new();
    assert_eq!(w.on_change(&SwitchState::Idle, Some("x".to_string())), None);
    assert_eq!(w.on_change(&SwitchState::Busy, Some("aa".to_string())), None);
    assert_eq!(w.on_change(&SwitchState::Busy, None), None);
    assert_eq!(w.on_change(&SwitchState::Failed, None), Some(Some("aa".to_string())));
    assert_eq!(w.on_change(&SwitchState::Idle, None), None);
    assert_eq!(w.on_change(&SwitchState::Busy, None), None);
    assert_eq!(w.on_change(&SwitchState::Idle, None), Some(None));
}

#[test]
fn only_media_that_was_paused_plays_again() {
    assert_eq!(after_switch(false, Some("aa".to_string())), AfterSwitch::Nothing);
    assert_eq!(
        after_switch(true, Some("aa".to_string())),
        AfterSwitch::RouteThenResume("aa".to_string())
    );
    assert_eq!(after_switch(true, None), AfterSwitch::Resume);
}

fn look(paused: bool, buds_here: bool) -> Surroundings {
    Surroundings { in_call: false, pill_active: false, settled: true, paused, buds_here }
}

#[test]
fn players_resume_after_two_looks() {
    let mut net = SafetyNet::new();
    assert_eq!(net.poll(look(true, true)), NetAction::Wait);
    assert_eq!(net.poll(look(false, true)), NetAction::Wait);
    assert_eq!(net.poll(look(true, true)), NetAction::Wait);
    assert_eq!(net.poll(look(true, true)), NetAction::Resume);
    let busy = Surroundings { pill_active: true, ..look(true, true) };
    assert_eq!(net.poll(busy), NetAction::Wait);
    assert_eq!(net.poll(busy), NetAction::Wait);
}

#[test]
fn lost_earbuds_are_asked_for_once() {
    let mut net = SafetyNet::new();
    let actions: Vec<NetAction> = (0..300).map(|_| net.poll(look(true, false))).collect();
    assert_eq!(actions[4], NetAction::Reclaim);
    assert_eq!(actions.iter().filter(|a| **a == NetAction::Reclaim).count(), 1);
    net.poll(look(false, false));
    for _ in 0..4 {
        assert_eq!(net.poll(look(true, false)), NetAction::Wait);
    }
    assert_eq!(net.poll(look(true, false)), NetAction::Reclaim);
}

#[test]
fn earbuds_are_asked_for_from_the_first_peer() {
    let peers = Ok(vec![trusted(A), trusted(B)]);
    assert_eq!(
        reclaim_target(Some(buds()), &peers),
        Some((A, "AA:BB:CC:DD:EE:FF".to_string()))
    );
    assert_eq!(reclaim_target(None, &peers), None);
    assert_eq!(reclaim_target(Some(buds()), &Ok(Vec::new())), None);
    assert_eq!(reclaim_target(Some(buds()), &Err(StorageError::NotFound)), None);
}

#[test]
fn a_setting_is_always_stamped_later() {
    let mut s = SmartSwitch { enabled: false, enabled_changed_at: 100 };
    s.set_smart_switch_enabled(true, 50);
    assert_eq!(s, SmartSwitch { enabled: true, enabled_changed_at: 101 });
    s.set_smart_switch_enabled(false, 500);
    assert_eq!(s, SmartSwitch { enabled: false, enabled_changed_at: 500 });
    assert!(!s.get_smart_switch_enabled());
}

#[test]
fn the_tray_gives_and_takes() {
    let mac = "AA:BB:CC:DD:EE:FF".to_string();
    let peers = Ok(vec![trusted(A)]);
    assert_eq!(
        toggle_earbuds(Some(buds()), true, &peers, true),
        Toggle::HandOver { mac: mac.clone(), peer: A }
    );
    assert_eq!(
        toggle_earbuds(Some(buds()), true, &peers, false),
        Toggle::Grab { mac, peer: A }
    );
    assert_eq!(toggle_earbuds(Some(buds()), false, &peers, true), Toggle::Ignored);
    assert_eq!(
        toggle_earbuds(None, true, &peers, true),
        Toggle::Refused("tray toggle: no saved earbuds".to_string())
    );
    assert_eq!(
        toggle_earbuds(Some(buds()), true, &Ok(Vec::new()), true),
        Toggle::Refused("tray toggle: no trusted peer".to_string())
    );
}

#[test]
fn a_request_names_a_trusted_peer() {
    let list = Ok(vec![trusted(A), trusted(B)]);
    assert_eq!(resolve_peer(&"02".repeat(32), &list, "switch"), Ok(1));
    assert_eq!(
        resolve_peer(&"03".repeat(32), &list, "switch"),
        Err("switch: peer not in trust store".to_string())
    );
    assert_eq!(
        resolve_peer("02", &list, "claim"),
        Err("claim: bad peer_static_pub hex".to_string())
    );
    assert_eq!(
        resolve_peer(&"zz".repeat(32), &list, "claim"),
        Err("claim: bad peer_static_pub hex".to_string())
    );
    assert_eq!(
        resolve_peer(&"02".repeat(32), &Err(StorageError::Backend("io".to_string())), "claim"),
        Err("peer_store.list for claim: backend error: io".to_string())
    );
    assert_eq!(find_peer(&vec![trusted(B), trusted(A), trusted(A)], &A), Some(1));
}

#[test]
fn an_errand_needs_an_address() {
    let v4 = HostAddr::V4([10, 0, 0, 1]);
    let at = |addresses: Vec<HostAddr>| Ok(Some(LanCandidate { addresses, port: 7 }));
    assert_eq!(errand_route(Errand::Switch, &at(vec![v4])), Ok((v4, 7)));
    assert_eq!(
        errand_route(Errand::Switch, &at(Vec::new())),
        Err("switch: candidate had no IP".to_string())
    );
    assert_eq!(errand_route(Errand::Claim, &at(Vec::new())), Err(String::new()));
    assert_eq!(
        errand_route(Errand::Switch, &Ok(None)),
        Err("switch: no LAN candidate (peer offline?)".to_string())
    );
    assert_eq!(
        errand_route(Errand::Switch, &Err("x".to_string())),
        Err("switch: mdns error: x".to_string())
    );
    assert_eq!(
        errand_route(Errand::Claim, &Err("x".to_string())),
        Err("claim: no LAN candidate".to_string())
    );
    assert_eq!(
        errand_route(Errand::Claim, &Ok(None)),
        Err("claim: no LAN candidate".to_string())
    );
}

#[test]
fn settings_launchers_are_tried_in_order() {
    assert_eq!(
        open_bluetooth_settings(0),
        Ok(vec!["gnome-control-center".to_string(), "bluetooth".to_string()])
    );
    assert_eq!(open_bluetooth_settings(1), Ok(vec!["blueberry".to_string()]));
    assert_eq!(
        open_bluetooth_settings(5),
        Ok(vec!["xdg-open".to_string(), "bluetooth://".to_string()])
    );
    assert_eq!(
        open_bluetooth_settings(6),
        Err("no Bluetooth settings launcher found".to_string())
    );
}

#[test]
fn a_switch_is_asked_for_once_at_a_time() {
    let mut arb = Arbiter::new();
    arb.claim(&A);
    assert_eq!(switch_peer(&mut arb, 1_000), Some(Some(A)));
    assert_eq!(switch_peer(&mut arb, 1_001), None);
    // The window closes on its own.
    assert_eq!(switch_peer(&mut arb, 46_000), Some(Some(A)));
}

fn candidate(key: [u8; 32], rssi: i16) -> PeerCandidate {
    PeerCandidate { peer_static_pub: key, name: Some("Pixel".to_string()), rssi }
}

#[test]
fn one_candidate_is_taken_and_several_are_offered() {
    let mut arb = Arbiter::new();
    switch_peer(&mut arb, 0);
    assert_eq!(
        switch_scanned(&mut arb, 1, &vec![candidate(B, -40)]),
        SwitchOutcome::Activate(B)
    );
    assert_eq!(
        switch_scanned(&mut arb, 1, &vec![candidate(A, -40), candidate(B, -50)]),
        SwitchOutcome::Choose
    );
    assert_eq!(switch_scanned(&mut arb, 1, &Vec::new()), SwitchOutcome::NobodyElse);
    assert!(!arb.is_switching(1));
    assert_eq!(
        switch_scanned(&mut arb, 1, &vec![candidate(B, -40)]),
        SwitchOutcome::Discarded
    );
    let rows = switch_rows(vec![candidate(B, -50)]);
    assert_eq!(rows[0].peer_static_pub, "02".repeat(32));
    assert_eq!(rows[0].name.as_deref(), Some("Pixel"));
    assert_eq!(rows[0].rssi, -50);
}

#[test]
fn activating_displaces_the_owner_and_closes_the_switch() {
    let mut arb = Arbiter::new();
    arb.claim(&A);
    switch_peer(&mut arb, 0);
    assert_eq!(activate(&mut arb, &B, false), Activation::Refused);
    assert!(arb.is_active(&A));
    assert_eq!(activate(&mut arb, &B, true), Activation::Done { displaced: Some(A) });
    assert!(arb.is_active(&B));
    assert!(!arb.is_switching(1));
    assert_eq!(activate(&mut arb, &B, true), Activation::Done { displaced: None });
}

#[test]
fn the_displaced_peer_is_told_who_has_the_session() {
    assert_eq!(release_body(3, Some("Zoë".to_string())), vec![3, b'Z', b'o', 0xC3, 0xAB]);
    assert_eq!(release_body(3, None), vec![3]);
}

#[test]
fn a_revocation_is_repeated_with_growing_counters() {
    let mut r = Revoke::begin(1_000, 7);
    assert_eq!(r.next(1_000), RevokeStep::Send { counter: 8 });
    assert_eq!(r.next(60_999), RevokeStep::Send { counter: 9 });
    assert_eq!(r.next(61_000), RevokeStep::Exhausted);
    let mut r = Revoke::begin(0, u64::MAX);
    assert_eq!(r.next(0), RevokeStep::Send { counter: u64::MAX });
}

#[test]
fn a_forgotten_peer_owns_nothing() {
    let mut arb = Arbiter::new();
    arb.claim(&A);
    arb.note_connected(&A);
    let told = forget_peer(&mut arb, &A, Ok(trusted(A)), Err(StorageError::NotFound));
    assert_eq!(told, Some((trusted(A), 0)));
    assert_eq!(arb.active(), None);
    assert!(!arb.is_connected(&A));
    assert_eq!(forget_peer(&mut arb, &A, Err(StorageError::NotFound), Ok(3)), None);
    assert_eq!(forget_peer(&mut arb, &A, Ok(trusted(A)), Ok(3)), Some((trusted(A), 3)));
}

#[test]
fn forgetting_everybody_leaves_nobody() {
    let mut arb = Arbiter::new();
    arb.claim(&B);
    arb.note_connected(&A);
    arb.note_connected(&B);
    forget_all(&mut arb, &vec![A, B]);
    assert_eq!(arb.active(), None);
    assert!(!arb.is_connected(&A) && !arb.is_connected(&B));
    assert_eq!(arb.claim(&A), Claim::Granted);
}

#[test]
fn an_open_switch_is_final_and_a_release_frees() {
    let mut arb = Arbiter::new();
    arb.claim(&A);
    arb.force_activate(&B);
    assert_eq!(arb.claim(&A), Claim::Busy { current: B });
    arb.release(&B);
    assert_eq!(arb.claim(&A), Claim::Granted);
}

#[test]
fn the_radio_comes_to_rest_before_a_pairing() {
    assert!(wait_for_quiet(Some(true), 0, 2_000));
    assert!(!wait_for_quiet(Some(true), 2_000, 2_000));
    assert!(!wait_for_quiet(Some(false), 0, 2_000));
    assert!(!wait_for_quiet(None, 0, 2_000));
}

#[test]
fn a_pairing_tells_the_user() {
    let ok = pairing_result("AA", Ok(()));
    assert_eq!((ok.ok, ok.text.as_str()), (true, "trust persisted with AA"));
    let bad = pairing_result("AA", Err("refused".to_string()));
    assert_eq!((bad.ok, bad.text.as_str()), (false, "refused"));
}

#[test]
fn a_forgotten_peer_has_no_address() {
    let mut addrs = PeerAddrs::new();
    addrs.remember_peer_addr(&A, PeerAddr([1; 6]));
    addrs.remember_peer_addr(&B, PeerAddr([2; 6]));
    addrs.remember_peer_addr(&A, PeerAddr([3; 6]));
    assert_eq!(addrs.take_peer_addr(&A), Some(PeerAddr([3; 6])));
    assert_eq!(addrs.take_peer_addr(&A), None);
    assert_eq!(addrs.take_peer_addr(&B), Some(PeerAddr([2; 6])));
}
