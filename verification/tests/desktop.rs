use vortex::applog::{is_too_large, log_dir, log_path, old_log_path, LogPlaces, Tee, MAX_LOG_BYTES};
use vortex::camera::{
    pipeline_text, resolve_v4l2_device, stage_failed, Camera, CameraAction, CameraOffer, Feed,
    FeedAction, FeedEvent, StartStage, VideoNode,
};
use vortex::diagnostics::{
    bus_name_owned, cmd_ok, diagnose, diagnostics, diagnostics_report, distro, Answers, Check,
};
use vortex::dnd::{
    apply_peer, banner_value, load_persisted, note_local_change, on_monitor_line, read_desktop,
    reconcile, resume, save_persisted, state, store_path, Dnd, PeerAction,
};
use vortex::file_consent::{
    auto_accept, auto_accept_path, auto_accept_text, decide, fmt_bytes, received_body, request_body, request_title,
    route, title_for, Asked, AutoAccept, Button, Received,
};
use vortex::platform::Host;
use vortex::session_lock::{
    bus_failed, graphical_session_path, idle_ms, is_our_watch, is_unlock_denied, locked_change,
    logind_idle_ms, ActiveWatch, BusCall, LoginSession,
};

fn some(s: &str) -> Option<String> {
    Some(s.to_string())
}

fn places(host: Host) -> LogPlaces {
    LogPlaces {
        host,
        state_home: some("/var/state"),
        home: some("/home/u"),
        logs: some("C:\\logs"),
        temp: "/tmp".to_string(),
    }
}

#[test]
fn the_log_lies_where_no_cleaner_looks() {
    let mut p = places(Host::Linux);
    assert_eq!(log_path(&p), "/var/state/vortex/vortex.log");
    assert_eq!(old_log_path(&p), "/var/state/vortex/vortex.log.1");
    p.state_home = some("relative");
    assert_eq!(log_dir(&p), "/home/u/.local/state/vortex");
    p.home = None;
    assert_eq!(log_dir(&p), "/tmp/vortex");
    let mut p = places(Host::Windows);
    assert_eq!(log_dir(&p), "C:\\logs");
    p.logs = None;
    assert_eq!(log_dir(&p), "/tmp/vortex");
}

#[test]
fn a_large_log_is_moved_aside_now_and_then() {
    assert!(is_too_large(Some(MAX_LOG_BYTES + 1)));
    assert!(!is_too_large(Some(MAX_LOG_BYTES)));
    assert!(!is_too_large(None));
    let mut tee = Tee::new();
    let moves: Vec<usize> =
        (0..1_100).filter(|_| tee.rotates(Some(MAX_LOG_BYTES + 1))).collect();
    assert_eq!(moves, vec![0, 512, 1_024]);
    let mut tee = Tee { writes: u64::MAX };
    assert!(!tee.rotates(None));
    assert_eq!(tee.writes, 0);
}

fn offer(rot: u16) -> Option<CameraOffer> {
    Some(CameraOffer { key: "0c".repeat(32), rot })
}

fn starts(stop: bool) -> CameraAction {
    CameraAction { stop, start: Some([0x0c; 32]) }
}

fn nothing(stop: bool) -> CameraAction {
    CameraAction { stop, start: None }
}

#[test]
fn one_offer_starts_one_pipeline() {
    let mut c = Camera::new();
    assert_eq!(c.dispatch_offer(&offer(90), true), nothing(false));
    assert!(!c.set_wanted(true));
    assert!(c.camera_wanted());
    assert_eq!(c.dispatch_offer(&offer(90), false), nothing(false));
    let bad = Some(CameraOffer { key: "0c".to_string(), rot: 90 });
    assert_eq!(c.dispatch_offer(&bad, true), nothing(false));
    assert_eq!(c.dispatch_offer(&offer(90), true), starts(false));
    assert_eq!(c.dispatch_offer(&offer(90), true), nothing(false));
    // A turned phone restarts it.
    assert_eq!(c.dispatch_offer(&offer(270), true), starts(true));
    assert!(c.set_wanted(false));
    assert!(!c.engaged);
}

#[test]
fn late_offers_are_forgiven() {
    let mut c = Camera::new();
    c.set_wanted(true);
    c.dispatch_offer(&offer(0), true);
    for _ in 0..3 {
        assert_eq!(c.dispatch_offer(&None, true), nothing(false));
    }
    c.dispatch_offer(&offer(0), true);
    for _ in 0..3 {
        assert_eq!(c.dispatch_offer(&None, true), nothing(false));
    }
    assert_eq!(c.dispatch_offer(&None, true), nothing(true));
    assert_eq!(c.dispatch_offer(&None, true), nothing(false));
    c.dispatch_offer(&offer(0), true);
    c.feed_ended();
    assert_eq!(c.dispatch_offer(&offer(0), true), starts(false));
}

#[test]
fn failures_release_the_camera() {
    let mut c = Camera::new();
    c.set_wanted(true);
    assert!(!c.started(false));
    assert!(!c.started(false));
    assert!(!c.started(true));
    assert!(!c.started(false));
    assert!(!c.started(false));
    assert!(c.camera_wanted());
    assert!(c.started(false));
    assert!(!c.camera_wanted());
}

#[test]
fn the_camera_needs_a_device() {
    let mut c = Camera::new();
    assert_eq!(c.set_camera_request(true, Err("no device".to_string())), Err("no device".to_string()));
    assert!(!c.camera_wanted());
    assert_eq!(c.set_camera_request(true, Ok("/dev/video42".to_string())), Ok(false));
    assert!(c.camera_wanted());
    assert_eq!(c.set_camera_request(false, Err("no device".to_string())), Ok(true));
    assert_eq!(c.camera_facing(), "front");
    c.set_camera_facing("back");
    assert_eq!(c.camera_facing(), "back");
    c.set_camera_facing("sideways");
    assert_eq!(c.camera_facing(), "front");
}

#[test]
fn the_loopback_device_is_known_by_its_label() {
    let node = |n: &str, label: Option<&str>, exists: bool| VideoNode {
        node: n.to_string(),
        label: label.map(str::to_string),
        exists,
    };
    let nodes = vec![
        node("video0", Some("Webcam\n"), true),
        node("video7", Some("Vortex Camera\n"), false),
        node("video8", Some(" Vortex Camera\n"), true),
    ];
    assert_eq!(resolve_v4l2_device(&nodes, true), Ok("/dev/video8".to_string()));
    assert_eq!(resolve_v4l2_device(&Vec::new(), true), Ok("/dev/video42".to_string()));
    assert!(resolve_v4l2_device(&vec![node("video0", None, true)], false)
        .unwrap_err()
        .starts_with("Vortex Camera (v4l2loopback) not found."));
}

#[test]
fn the_pipeline_turns_the_picture_upright() {
    assert!(pipeline_text(90, "/dev/video42").contains("videoflip method=clockwise ! "));
    assert!(pipeline_text(180, "/dev/video42").contains("videoflip method=rotate-180 ! "));
    assert!(pipeline_text(270, "/dev/video42").contains("videoflip method=counterclockwise ! "));
    let straight = pipeline_text(0, "/dev/video42");
    assert!(!straight.contains("videoflip"));
    assert!(straight.starts_with("appsrc name=src"));
    assert!(straight.ends_with("v4l2sink device=/dev/video42 sync=false"));
}

#[test]
fn each_stage_fails_in_its_own_words() {
    for (stage, said) in [
        (StartStage::Init, "gst init: x"),
        (StartStage::Device, "x"),
        (StartStage::Build, "build pipeline: x"),
        (StartStage::Downcast, "pipeline downcast"),
        (StartStage::Source, "appsrc missing"),
        (StartStage::Play, "pipeline play: x"),
    ] {
        assert_eq!(stage_failed(stage, "x"), said);
    }
}

#[test]
fn a_feed_runs_until_something_ends_it() {
    let mut f = Feed::new();
    assert_eq!(f.step(FeedEvent::Frame), FeedAction::Push { first: true });
    assert_eq!(f.step(FeedEvent::Pushed { ok: true }), FeedAction::Wait);
    assert_eq!(f.step(FeedEvent::Frame), FeedAction::Push { first: false });
    for ev in [
        FeedEvent::Pushed { ok: false },
        FeedEvent::Fatal,
        FeedEvent::Stop,
        FeedEvent::Closed,
    ] {
        assert_eq!(f.step(ev), FeedAction::End);
    }
}

fn answers() -> Answers {
    Answers {
        app_version: "1.2".to_string(),
        log_path: "/log".to_string(),
        os_release: some("NAME=x\nPRETTY_NAME=\"Fedora 40\"\n"),
        session: some("wayland"),
        desktop: some("ubuntu:GNOME"),
        adapter: some("Powered: yes"),
        wedged: 0,
        paired: 2,
        adb: some("List of devices attached\nabc\tdevice\ndef\tunauthorized\n"),
        transport: true,
        shell_loaded: true,
        keyring: true,
        x264enc: true,
        openh264enc: false,
    }
}

fn found(checks: &Vec<Check>, id: &str) -> (String, String) {
    let c = checks.iter().find(|c| c.id == id).unwrap();
    (c.level.clone(), c.detail.clone())
}

#[test]
fn a_healthy_machine_is_found_healthy() {
    let d = diagnostics(answers());
    assert!(d.checks.iter().all(|c| c.level == "ok"));
    let ids: Vec<&str> = d.checks.iter().map(|c| c.id.as_str()).collect();
    assert_eq!(
        ids,
        vec![
            "distro",
            "desktop",
            "bluetooth",
            "bluetooth_discovery",
            "paired",
            "adb",
            "injector",
            "gnome_extension",
            "keyring",
            "gstreamer",
        ]
    );
    assert_eq!(found(&d.checks, "distro").1, "Fedora 40");
    assert_eq!(found(&d.checks, "desktop").1, "ubuntu:GNOME (wayland)");
    assert_eq!(found(&d.checks, "adb").1, "1 device(s) attached");
    assert_eq!(
        diagnostics_report(&d).lines().nth(2).unwrap(),
        format!("ok    {:<16} ubuntu:GNOME (wayland)", "desktop")
    );
    assert!(diagnostics_report(&d).starts_with("Vortex 1.2\n"));
    assert!(diagnostics_report(&d).ends_with("\n\nlog: /log\n"));
}

#[test]
fn each_fault_is_named() {
    let mut a = answers();
    a.adapter = some("Powered: no");
    a.wedged = 3;
    a.paired = 0;
    a.adb = None;
    a.transport = false;
    a.desktop = None;
    a.keyring = false;
    a.x264enc = false;
    a.os_release = None;
    let d = diagnostics(a);
    let level = |id: &str| found(&d.checks, id).0;
    assert_eq!(found(&d.checks, "distro").1, "unknown");
    assert_eq!(found(&d.checks, "desktop").1, "unknown (wayland)");
    assert_eq!(level("bluetooth"), "fail");
    assert_eq!(
        found(&d.checks, "bluetooth_discovery").1,
        "adapter is powered but not discovering (3 scan round(s)) — turn Bluetooth off and on \
         to clear it"
    );
    assert_eq!(level("paired"), "warn");
    assert_eq!(level("adb"), "warn");
    assert_eq!(level("injector"), "warn");
    assert_eq!(found(&d.checks, "gnome_extension").1, "not GNOME — pill unavailable");
    assert_eq!(level("keyring"), "fail");
    assert_eq!(level("gstreamer"), "warn");
    let mut a = answers();
    a.adapter = None;
    a.openh264enc = true;
    a.x264enc = false;
    a.shell_loaded = false;
    let d = diagnose(a, "gnome");
    assert_eq!(found(&d.checks, "bluetooth").1, "no adapter (bluetoothctl found none)");
    assert_eq!(found(&d.checks, "gstreamer").1, "openh264enc present");
    assert_eq!(
        found(&d.checks, "gnome_extension").1,
        "not loaded — log out and back in once"
    );
}

#[test]
fn answers_of_the_system_are_read() {
    assert_eq!(distro(&some("A=1\nB=2")), "unknown");
    assert_eq!(distro(&some("PRETTY_NAME=Arch")), "Arch");
    assert_eq!(cmd_ok(true, " x\n").as_deref(), Some("x"));
    assert_eq!(cmd_ok(false, "x"), None);
    assert!(bus_name_owned(&some("(true,)")));
    assert!(!bus_name_owned(&some("(false,)")));
    assert!(!bus_name_owned(&None));
}

#[test]
fn the_later_change_wins() {
    let a = Dnd { on: true, changed_at: 10 };
    let b = Dnd { on: false, changed_at: 7 };
    let mut at_a = a;
    let mut at_b = b;
    assert_eq!(apply_peer(&mut at_a, b.on, b.changed_at, Some(true)), PeerAction::Ignore);
    assert_eq!(apply_peer(&mut at_b, a.on, a.changed_at, Some(false)), PeerAction::Apply);
    assert_eq!(at_a, at_b);
    assert_eq!(state(&at_a), (true, 10));
    // The same setting with a later stamp needs no change of the desktop.
    assert_eq!(apply_peer(&mut at_a, true, 11, Some(true)), PeerAction::Keep);
    assert_eq!(apply_peer(&mut at_a, true, 12, Some(false)), PeerAction::Apply);
    assert_eq!(apply_peer(&mut at_a, false, 0, Some(true)), PeerAction::Ignore);
    assert_eq!(apply_peer(&mut at_a, false, 12, Some(true)), PeerAction::Ignore);
}

#[test]
fn a_local_change_is_always_later() {
    let mut d = Dnd { on: false, changed_at: 100 };
    note_local_change(&mut d, true, 5);
    assert_eq!(d, Dnd { on: true, changed_at: 101 });
    assert!(!on_monitor_line(&mut d, "show-banners: false", 500));
    assert!(on_monitor_line(&mut d, "show-banners: true\n", 500));
    assert_eq!(d, Dnd { on: false, changed_at: 500 });
    assert!(!on_monitor_line(&mut d, "nothing of note", 600));
    assert!(!reconcile(&mut d, None, 600));
    assert!(!reconcile(&mut d, Some(false), 600));
    assert!(reconcile(&mut d, Some(true), 600));
    assert_eq!(d, Dnd { on: true, changed_at: 600 });
}

#[test]
fn a_restart_resumes_the_setting() {
    assert_eq!(resume(None, Some((true, 5)), 9), None);
    assert_eq!(
        resume(Some(true), Some((true, 5)), 9),
        Some((Dnd { on: true, changed_at: 5 }, false))
    );
    assert_eq!(
        resume(Some(false), Some((true, 5)), 9),
        Some((Dnd { on: false, changed_at: 9 }, true))
    );
    assert_eq!(
        resume(Some(true), Some((false, 0)), 9),
        Some((Dnd { on: true, changed_at: 0 }, false))
    );
    assert_eq!(resume(Some(true), None, 9), Some((Dnd { on: true, changed_at: 0 }, false)));
}

#[test]
fn the_setting_is_written_down_and_read_back() {
    for (on, at) in [(true, 0u64), (false, 17), (true, u64::MAX)] {
        assert_eq!(load_persisted(&save_persisted(on, at)), Some((on, at)));
    }
    assert_eq!(save_persisted(true, 17), "{\n  \"on\": true,\n  \"changed_at\": 17\n}\n");
    assert_eq!(load_persisted("{\"on\": true, \"changed_at\": 9}"), Some((true, 9)));
    assert_eq!(load_persisted("{\"on\": true}"), None);
    assert_eq!(load_persisted("{\"changed_at\": soon}"), None);
    assert_eq!(
        store_path(some("/c"), some("/h")).as_deref(),
        Some("/c/vortex/dnd.json")
    );
    assert_eq!(
        store_path(None, some("/h")).as_deref(),
        Some("/h/.config/vortex/dnd.json")
    );
    assert_eq!(store_path(None, None), None);
    assert_eq!(read_desktop(&some("false"), None), Some(true));
    assert_eq!(read_desktop(&some("true"), None), Some(false));
    assert_eq!(read_desktop(&None, None), None);
    // Without a setting of banners the notification service is heard.
    assert_eq!(read_desktop(&None, Some(true)), Some(true));
    assert_eq!(read_desktop(&None, Some(false)), Some(false));
    assert_eq!(read_desktop(&some("true"), Some(true)), Some(false));
    assert_eq!(banner_value(true), "false");
    assert_eq!(banner_value(false), "true");
}

#[test]
fn sizes_read_as_a_float_would_print_them() {
    let printed = |n: u64| -> String {
        if n < 1024 {
            format!("{n} B")
        } else if n < 1024 * 1024 {
            format!("{} KB", n / 1024)
        } else if n < 1024 * 1024 * 1024 {
            format!("{:.1} MB", n as f64 / 1024.0 / 1024.0)
        } else {
            format!("{:.2} GB", n as f64 / 1024.0 / 1024.0 / 1024.0)
        }
    };
    assert_eq!(fmt_bytes(1_572_864), "1.5 MB");
    assert_eq!(fmt_bytes(1_073_741_824), "1.00 GB");
    let mut n: u64 = 1;
    for i in 0..4_000u64 {
        for m in [n, n.wrapping_sub(1), n.wrapping_add(1)] {
            assert_eq!(fmt_bytes(m), printed(m), "{m}");
        }
        n = n.wrapping_mul(6_364_136_223_846_793_005).wrapping_add(i) >> (i % 60);
    }
    for k in 0..2_000u64 {
        // Halves of the last digit, where rounding is decided by evenness.
        let m = 1_048_576 + k * 26_214;
        assert_eq!(fmt_bytes(m), printed(m), "{m}");
        let g = 1_073_741_824 + k * 2_684_354 + (k % 7);
        assert_eq!(fmt_bytes(g), printed(g), "{g}");
        let tie = 5_368_709_120 + k * 5_368_709_120 / 8;
        assert_eq!(fmt_bytes(tie), printed(tie), "{tie}");
    }
    for k in 50..64u32 {
        for d in 0..40u64 {
            let m = (1u64 << k).wrapping_add(d).wrapping_sub(20);
            assert_eq!(fmt_bytes(m), printed(m), "{m}");
        }
    }
    assert_eq!(fmt_bytes(u64::MAX), printed(u64::MAX));
}

#[test]
fn consent_is_asked_for_in_plain_words() {
    for (kind, one, many) in [
        ("screenshot", "Phone took a screenshot", "Phone took 3 screenshots"),
        ("photo", "Phone took a photo", "Phone took 3 photos"),
        ("screen_recording", "Phone made a screen recording", "Phone made 3 screen recordings"),
        ("video", "Phone recorded a video", "Phone recorded 3 videos"),
        ("", "Phone wants to send a file", "Phone wants to send 3 files"),
    ] {
        assert_eq!(request_title(kind, 1), one);
        assert_eq!(request_title(kind, 3), many);
    }
    assert_eq!(request_body("a.txt", 2_048), "a.txt · 2 KB");
}

#[test]
fn consent_fails_closed() {
    assert!(decide(true, Asked::NotShown));
    assert!(!decide(false, Asked::NotShown));
    assert!(!decide(false, Asked::Unanswered));
    assert!(!decide(false, Asked::Answered { accept: false }));
    assert!(decide(false, Asked::Answered { accept: true }));
    assert!(auto_accept(&some(" 1\n")));
    assert!(!auto_accept(&some("yes")));
    assert!(!auto_accept(&None));
    for enabled in [true, false] {
        assert_eq!(auto_accept(&Some(auto_accept_text(enabled))), enabled);
    }
}

#[test]
fn the_setting_stays_where_it_was() {
    let path = |host: Host| auto_accept_path(host, some("/home/u"), some("C:\\R\\Vortex"));
    assert_eq!(
        path(Host::Linux).as_deref(),
        Some("/home/u/.local/share/vortex/file_auto_accept")
    );
    assert_eq!(path(Host::Windows).as_deref(), Some("C:\\R\\Vortex\\file_auto_accept"));
    assert_eq!(auto_accept_path(Host::Linux, None, some("C:\\R")), None);
    assert_eq!(auto_accept_path(Host::Windows, some("/home/u"), None), None);
}

#[test]
fn the_choice_of_this_process_counts() {
    let mut a = AutoAccept::new();
    assert!(a.get_file_auto_accept(&some("1")));
    assert!(a.get_file_auto_accept(&some("0")));
    assert_eq!(
        a.set_file_auto_accept(false, some("/p")),
        Ok(("/p".to_string(), "0".to_string()))
    );
    assert!(!a.get_file_auto_accept(&some("1")));
    assert_eq!(a.set_file_auto_accept(true, None), Err("no HOME".to_string()));
    assert!(a.get_file_auto_accept(&None));
}

#[test]
fn buttons_of_file_notifications() {
    assert_eq!(route("fc:accept"), Button::Accept);
    assert_eq!(route("fc:decline"), Button::Decline);
    assert_eq!(route("fc:copy"), Button::Copy);
    assert_eq!(route("fc:open"), Button::Open);
    assert_eq!(route("call:accept"), Button::NotOurs);
    assert_eq!(title_for("screenshot"), "Screenshot from your phone");
    assert_eq!(title_for("photo"), "Photo from your phone");
    assert_eq!(title_for("screen_recording"), "Screen recording from your phone");
    assert_eq!(title_for("video"), "Video from your phone");
    assert_eq!(title_for("else"), "File from your phone");
    assert_eq!(received_body("/home/u/Pictures/a.png"), "a.png · saved to Pictures");
    assert_eq!(received_body("/a.png"), "a.png · saved to ");
}

#[test]
fn a_received_file_is_taken_once_and_the_oldest_are_forgotten() {
    let mut r = Received::new();
    for i in 0..70u32 {
        r.note(i, format!("f{i}"));
    }
    assert_eq!(r.files.len(), 64);
    assert_eq!(r.take_received(5), None);
    assert_eq!(r.take_received(6).as_deref(), Some("f6"));
    assert_eq!(r.take_received(6), None);
    assert_eq!(r.take_received(69).as_deref(), Some("f69"));
}

#[test]
fn a_refused_unlock_is_told_from_a_failed_one() {
    assert!(is_unlock_denied("org.freedesktop.DBus.Error.AccessDenied: no"));
    assert!(is_unlock_denied("Interactive authentication required."));
    assert!(is_unlock_denied("Not authorized"));
    assert!(!is_unlock_denied("timeout"));
    assert_eq!(bus_failed(BusCall::Manager, "x"), "login1 manager proxy: x");
    assert_eq!(bus_failed(BusCall::ListSessions, "x"), "ListSessions: x");
    assert_eq!(bus_failed(BusCall::Uid, "x"), "uid lookup: x");
    assert_eq!(bus_failed(BusCall::Session, "x"), "login1 session proxy: x");
    assert_eq!(bus_failed(BusCall::SystemBus, "x"), "system bus: x");
    assert_eq!(bus_failed(BusCall::Lock, "x"), "logind Lock: x");
    assert_eq!(
        bus_failed(BusCall::Unlock, "x"),
        "logind Unlock: x (missing the one-time rule? run: sudo \
         linux/packaging/install-unlock-rule.sh)"
    );
}

#[test]
fn the_session_with_a_screen_is_preferred() {
    let session = |uid: u32, seat: &str, path: &str| LoginSession {
        uid,
        seat: seat.to_string(),
        path: path.to_string(),
    };
    let all = vec![session(1, "", "/a"), session(2, "seat0", "/b"), session(1, "seat0", "/c")];
    assert_eq!(graphical_session_path(&all, 1), Ok("/c".to_string()));
    assert_eq!(graphical_session_path(&all[..1].iter().map(|s| session(s.uid, &s.seat, &s.path)).collect(), 1), Ok("/a".to_string()));
    assert_eq!(
        graphical_session_path(&all, 3),
        Err("no logind session for this user".to_string())
    );
}

#[test]
fn idleness_comes_from_the_first_source_that_knows() {
    assert_eq!(logind_idle_ms(false, 1, 5_000_000), 0);
    assert_eq!(logind_idle_ms(true, 1_000_000, 3_500_000), 2_500);
    assert_eq!(logind_idle_ms(true, 9, 5), 0);
    assert_eq!(idle_ms(Some(1), Some(2), Some(3)), Some(1));
    assert_eq!(idle_ms(None, Some(2), Some(3)), Some(2_000));
    assert_eq!(idle_ms(None, None, Some(3)), Some(3));
    assert_eq!(idle_ms(None, None, None), None);
}

#[test]
fn a_return_is_noticed_once() {
    assert!(ActiveWatch::begin(None).is_err());
    let mut w = ActiveWatch::begin(Some(0)).ok().unwrap();
    assert!(!w.poll(Some(2_999)));
    assert!(!w.poll(Some(10)));
    assert!(!w.poll(Some(3_000)));
    assert!(!w.poll(None));
    assert!(w.poll(Some(1_499)));
    assert!(!w.poll(Some(100)));
    // The second look is what the next one is compared with.
    let mut w = ActiveWatch::begin(Some(9_000)).ok().unwrap();
    w.settle(Some(10));
    assert!(!w.poll(Some(20)));
    w.settle(Some(9_000));
    assert!(w.poll(Some(20)));
    w.settle(None);
    assert_eq!(w.prev, 0);
    assert!(!w.poll(Some(20)));
    assert!(is_our_watch(Some(4), 4));
    assert!(!is_our_watch(Some(5), 4) && !is_our_watch(None, 4));
    assert_eq!(locked_change("org.freedesktop.login1.Session", Some(true)), Some(true));
    assert_eq!(locked_change("org.freedesktop.login1.User", Some(true)), None);
    assert_eq!(locked_change("org.freedesktop.login1.Session", None), None);
}

#[test]
fn of_several_reports_the_latest_change_wins_in_any_order() {
    let reports = [(true, 20), (false, 30), (true, 10), (true, 30), (false, 0)];
    let run = |order: &[usize]| {
        let mut d = Dnd { on: false, changed_at: 15 };
        for i in order {
            apply_peer(&mut d, reports[*i].0, reports[*i].1, None);
        }
        d
    };
    assert_eq!(run(&[0, 1, 2, 4]), Dnd { on: false, changed_at: 30 });
    assert_eq!(run(&[4, 2, 1, 0]), Dnd { on: false, changed_at: 30 });
    assert_eq!(run(&[1, 1, 0, 0, 1]), Dnd { on: false, changed_at: 30 });
    // Of two reports with the same stamp the first counts.
    assert_eq!(run(&[3, 1]), Dnd { on: true, changed_at: 30 });
    // None of these is later.
    assert_eq!(run(&[2, 4, 2]), Dnd { on: false, changed_at: 15 });
}
