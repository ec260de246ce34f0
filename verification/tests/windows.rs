use vortex::platform::autostart::{bytes_of_units, read_entry, read_utf16, wide, Autostart, WindowsAutostart};
use vortex::platform::gatt::{
    candidate_from, err, signed_text, AdSection, GattLink, GattSlot, LinuxGattLink, ServiceSearch,
    WindowsBleCentral, WindowsGattLink, AD_TYPE_SERVICE_DATA_128,
};
use vortex::platform::input::{
    edge_code, CapturedEvent, MouseMessage, Verdict, WindowsInputCapture,
};
use vortex::platform::notify::{
    clicked_key, closed_reason, fan_out, plan_shortcut, Dismissal, ShortcutPlan, WindowsNotifier,
};
use vortex::platform::paths::{is_absolute, join, paths, LinuxPaths, UserPaths, WindowsPaths};
use vortex::platform::session::{session, SessionControl, SessionInfo, WindowsSession};
use vortex::platform::{host_name, AdvPayload, Edge, Host, PeerAddr};

fn some(s: &str) -> Option<String> {
    Some(s.to_string())
}

#[test]
fn a_text_survives_utf16() {
    for s in ["", "C:\\v.exe", "Téléchargements", "😀 smile"] {
        let units = wide(s);
        let expected: Vec<u16> = s.encode_utf16().chain(std::iter::once(0)).collect();
        assert_eq!(units, expected);
        assert_eq!(read_utf16(&units[..units.len() - 1].to_vec()), s);
        assert_eq!(read_entry(&bytes_of_units(&units)), s);
    }
    assert_eq!(read_utf16(&vec![0x41, 0xd800, 0x42, 0xdc00]), "A\u{fffd}B\u{fffd}");
    assert_eq!(bytes_of_units(&vec![0x1234]), vec![0x34, 0x12]);
}

#[test]
fn registering_takes_effect() {
    let exe = "C:\\Program Files\\Vortex\\vortex.exe";
    let mut a = WindowsAutostart { exe: Ok(exe.to_string()), entry: None };
    assert!(!a.is_enabled());
    assert!(a.set_enabled(true).is_ok());
    assert!(a.is_enabled());
    // Capitals do not matter to Windows.
    a.exe = Ok(exe.to_uppercase());
    assert!(a.is_enabled());
    a.exe = Ok("C:\\other.exe".to_string());
    assert!(!a.is_enabled());
    assert!(a.set_enabled(false).is_ok());
    assert!(a.entry.is_none());
    a.exe = Err("gone".to_string());
    assert_eq!(a.set_enabled(true), Err("current_exe: gone".to_string()));
    assert!(!a.is_enabled());
}

fn linux_link(has_audio_signal: bool) -> LinuxGattLink {
    LinuxGattLink {
        addr: PeerAddr([1; 6]),
        capability: 1,
        pairing_control: 2,
        reconnect_control: 3,
        audio_signal: 4,
        has_audio_signal,
    }
}

#[test]
fn a_link_knows_its_characteristics() {
    let link = linux_link(true);
    assert_eq!(link.characteristic(1), Ok(GattSlot::Capability));
    assert_eq!(link.characteristic(2), Ok(GattSlot::PairingControl));
    assert_eq!(link.characteristic(3), Ok(GattSlot::ReconnectControl));
    assert_eq!(link.characteristic(4), Ok(GattSlot::AudioSignal));
    assert!(link.has(4));
    assert_eq!(link.peer(), PeerAddr([1; 6]));
    let old = linux_link(false);
    assert!(!old.has(4));
    assert_eq!(
        old.characteristic(4),
        Err("audio-signal characteristic absent on this peer".to_string())
    );
    assert_eq!(
        old.characteristic(0x0123_4567_89ab_cdef_0123_4567_89ab_cdef),
        Err("01234567-89ab-cdef-0123-456789abcdef is not a vortex characteristic".to_string())
    );
}

#[test]
fn a_search_leads_to_a_link_or_says_why_not() {
    let found = |services: Result<usize, String>, ok: bool| ServiceSearch {
        services,
        characteristics_ok: ok,
        characteristics: vec![7, 0xa0],
    };
    let addr = PeerAddr([2; 6]);
    let link: WindowsGattLink =
        WindowsBleCentral.resolve(addr, found(Ok(1), true)).ok().unwrap();
    assert!(link.has(7) && !link.has(8));
    assert_eq!(link.characteristic(0xa0), Ok(1));
    assert_eq!(
        link.characteristic(0xb1),
        Err("characteristic 000000000000000000000000000000b1 not on this device".to_string())
    );
    assert_eq!(link.peer(), addr);
    // Of two with one identifier the last counts.
    let twice = WindowsGattLink { addr, chars: vec![7, 0xa0, 7] };
    assert_eq!(twice.characteristic(7), Ok(2));
    assert_eq!(twice.characteristic(0xa0), Ok(1));
    let why = |f: ServiceSearch| WindowsBleCentral.resolve(addr, f).err().unwrap();
    assert_eq!(
        why(found(Err("Unreachable".to_string()), true)),
        "vortex service not reachable: status Unreachable"
    );
    assert_eq!(why(found(Ok(0), true)), "vortex service absent on this device");
    assert_eq!(why(found(Ok(1), false)), "could not enumerate vortex characteristics");
    assert_eq!(err("connect", "refused", -2_147_467_259), "connect: refused (-2147467259)");
    assert_eq!(signed_text(i64::MIN), i64::MIN.to_string());
    assert_eq!(signed_text(0), "0");
}

#[test]
fn an_advertisement_with_our_section_is_a_candidate() {
    let payload = AdvPayload { pairable: true, trusted_presence: false, payload_8: [3; 8] };
    let sections = vec![
        AdSection { data_type: 0x09, payload: Some(payload) },
        AdSection { data_type: AD_TYPE_SERVICE_DATA_128, payload: None },
        AdSection { data_type: AD_TYPE_SERVICE_DATA_128, payload: Some(payload) },
    ];
    let c = candidate_from(0xFFFF_AABB_CCDD_EEFF, None, "", &sections).unwrap();
    assert_eq!(c.addr, PeerAddr([0xAA, 0xBB, 0xCC, 0xDD, 0xEE, 0xFF]));
    assert_eq!((c.rssi, c.local_name, c.payload), (Some(0), None, payload));
    let c = candidate_from(1, Some(-40), "Pixel", &sections).unwrap();
    assert_eq!((c.rssi, c.local_name.as_deref()), (Some(-40), Some("Pixel")));
    assert!(candidate_from(1, None, "", &Vec::new()).is_none());
}

#[test]
fn the_pointer_is_held_at_the_armed_edge() {
    let mut c = WindowsInputCapture::new();
    assert_eq!(c.mouse_hook(MouseMessage::Move, 0, 5, 100, 50), Verdict::Pass);
    c.arm(Edge::Left);
    assert_eq!(c.mouse_hook(MouseMessage::LeftDown, 0, 5, 100, 50), Verdict::Pass);
    assert_eq!(c.mouse_hook(MouseMessage::Move, 1, 5, 100, 50), Verdict::Pass);
    assert_eq!(
        c.mouse_hook(MouseMessage::Move, 0, 5, 100, 50),
        Verdict::Take { x: 0, y: 5 }
    );
    assert_eq!(c.mouse_hook(MouseMessage::Move, 0, 5, 100, 50), Verdict::Swallow(None));
    assert_eq!(
        c.mouse_hook(MouseMessage::Move, -3, 9, 100, 50),
        Verdict::SwallowAndRecentre {
            event: CapturedEvent::Motion { dx: -3, dy: 4 },
            x: 0,
            y: 5,
        }
    );
    for (msg, button, pressed) in [
        (MouseMessage::LeftDown, 1, true),
        (MouseMessage::LeftUp, 1, false),
        (MouseMessage::MiddleDown, 2, true),
        (MouseMessage::MiddleUp, 2, false),
        (MouseMessage::RightDown, 3, true),
        (MouseMessage::RightUp, 3, false),
    ] {
        assert_eq!(
            c.mouse_hook(msg, 0, 5, 100, 50),
            Verdict::Swallow(Some(CapturedEvent::Button { button, pressed }))
        );
    }
    assert_eq!(
        c.mouse_hook(MouseMessage::Wheel { data: 0xFF88_0000 }, 0, 5, 100, 50),
        Verdict::Swallow(Some(CapturedEvent::Scroll { across: 0, along: -120 }))
    );
    assert_eq!(
        c.mouse_hook(MouseMessage::HWheel { data: 0x0078_0001 }, 0, 5, 100, 50),
        Verdict::Swallow(Some(CapturedEvent::Scroll { across: 120, along: 0 }))
    );
    assert_eq!(c.mouse_hook(MouseMessage::Other, 0, 5, 100, 50), Verdict::Swallow(None));
    c.release();
    assert_eq!(c.mouse_hook(MouseMessage::Move, 0, 5, 100, 50), Verdict::Pass);
}

#[test]
fn every_edge_can_be_armed() {
    for (edge, x, y, code) in
        [(Edge::Left, 0, 25, 0), (Edge::Right, 99, 25, 1), (Edge::Top, 50, 0, 2), (Edge::Bottom, 50, 49, 3)]
    {
        let mut c = WindowsInputCapture::new();
        assert!(!c.at_armed_edge(x, y, 100, 50));
        c.arm(edge);
        assert!(c.at_armed_edge(x, y, 100, 50));
        assert!(!c.at_armed_edge(50, 25, 100, 50));
        assert_eq!(edge_code(edge), code);
    }
}

#[test]
fn keys_go_to_the_phone_only_while_captured() {
    let mut c = WindowsInputCapture::new();
    assert_eq!(c.key_hook(0x41, Some(true)), Verdict::Pass);
    c.capturing = true;
    assert_eq!(
        c.key_hook(0x41, Some(true)),
        Verdict::Swallow(Some(CapturedEvent::Key { keycode: 30, pressed: true }))
    );
    assert_eq!(c.key_hook(0x41, None), Verdict::Pass);
    assert_eq!(c.key_hook(0xB0, Some(false)), Verdict::Pass);
}

#[test]
fn a_toast_replaces_the_one_that_is_up() {
    let mut n = WindowsNotifier::new();
    let (a, tag) = n.place(0);
    assert_eq!(a, 1);
    n.shown(a);
    assert_eq!(n.place(a), (1, tag.clone()));
    assert_eq!(n.place(9).0, 2);
    assert_eq!(n.close(a), Some(tag));
    assert_eq!(n.close(a), None);
    assert_eq!(n.place(a).0, 3);
}

#[test]
fn dismissals_and_clicks_are_told_apart() {
    assert_eq!(closed_reason(Some(Dismissal::TimedOut)), 1);
    assert_eq!(closed_reason(Some(Dismissal::UserCanceled)), 2);
    assert_eq!(closed_reason(Some(Dismissal::ApplicationHidden)), 3);
    assert_eq!(closed_reason(Some(Dismissal::Unknown)), 4);
    assert_eq!(closed_reason(None), 4);
    assert_eq!(clicked_key("fc:accept").as_deref(), Some("fc:accept"));
    assert_eq!(clicked_key(""), None);
    assert_eq!(fan_out(&vec![1, 2, 3], &vec![true, false, true]), vec![1, 3]);
    assert_eq!(plan_shortcut(false, true, true), ShortcutPlan::NoFolder);
    assert_eq!(plan_shortcut(true, true, false), ShortcutPlan::Present);
    assert_eq!(plan_shortcut(true, false, false), ShortcutPlan::NoPath);
    assert_eq!(plan_shortcut(true, false, true), ShortcutPlan::Write);
}

fn linux_paths() -> LinuxPaths {
    LinuxPaths {
        home: some("/home/u"),
        xdg_cache_home: None,
        xdg_config_home: some("relative"),
        xdg_download_dir: None,
        user_dirs: some("XDG_DOWNLOAD_DIR=\"$HOME/Dl\"\n"),
    }
}

fn windows_paths() -> WindowsPaths {
    WindowsPaths {
        downloads: some("C:\\Users\\u\\Downloads"),
        roaming: some("C:\\R"),
        local: some("C:\\L"),
    }
}

#[test]
fn directories_of_a_linux_user() {
    let mut p = linux_paths();
    assert_eq!(p.downloads().as_deref(), Some("/home/u/Dl"));
    assert_eq!(p.config().as_deref(), Some("/home/u/.config/vortex"));
    assert_eq!(p.cache().as_deref(), Some("/home/u/.cache/vortex"));
    assert_eq!(p.logs(), p.cache());
    assert_eq!(p.user_dirs_file().as_deref(), Some("/home/u/.config/user-dirs.dirs"));
    p.xdg_cache_home = some("/c");
    p.xdg_config_home = some("/g");
    p.user_dirs = None;
    assert_eq!(p.cache().as_deref(), Some("/c/vortex"));
    assert_eq!(p.config_home().as_deref(), Some("/g"));
    assert_eq!(p.downloads().as_deref(), Some("/home/u/Downloads"));
    p.xdg_download_dir = some("/d");
    assert_eq!(p.downloads().as_deref(), Some("/d"));
    p.home = None;
    assert_eq!(p.downloads(), None);
    assert_eq!(p.config(), None);
    assert_eq!(p.cache(), None);
    assert!(is_absolute("/x") && !is_absolute("x"));
    assert_eq!(join("/a", "b"), "/a/b");
    assert_eq!(join("/a/", "b"), "/a/b");
}

#[test]
fn directories_of_a_windows_user() {
    let p = windows_paths();
    assert_eq!(p.downloads().as_deref(), Some("C:\\Users\\u\\Downloads"));
    assert_eq!(p.config().as_deref(), Some("C:\\R\\Vortex"));
    assert_eq!(p.cache().as_deref(), Some("C:\\L\\Vortex\\Cache"));
    assert_eq!(p.logs().as_deref(), Some("C:\\L\\Vortex"));
    assert_eq!(
        paths(Host::Windows, linux_paths(), windows_paths()).config().as_deref(),
        Some("C:\\R\\Vortex")
    );
    assert_eq!(
        paths(Host::Linux, linux_paths(), windows_paths()).downloads().as_deref(),
        Some("/home/u/Dl")
    );
}

#[test]
fn only_linux_unlocks_a_session() {
    assert!(session(Host::Linux).can_unlock());
    assert!(session(Host::Linux).unlock().is_ok());
    assert!(!session(Host::Windows).can_unlock());
    assert_eq!(
        session(Host::Windows).unlock(),
        Err("windows cannot unlock a session programmatically".to_string())
    );
    let info = |bytes: usize, level: u32, flags: i32| Some(SessionInfo { bytes, level, flags });
    assert_eq!(WindowsSession::query_session_locked(info(8, 1, 0), 8, 0), Some(true));
    assert_eq!(WindowsSession::query_session_locked(info(8, 1, 1), 8, 0), Some(false));
    assert_eq!(WindowsSession::query_session_locked(info(7, 1, 0), 8, 0), None);
    assert_eq!(WindowsSession::query_session_locked(info(8, 2, 0), 8, 0), None);
    assert_eq!(WindowsSession::query_session_locked(None, 8, 0), None);
    assert_eq!(host_name(Some(" blade\n")).as_deref(), Some("blade"));
    assert_eq!(host_name(Some(" \n")), None);
    assert_eq!(host_name(None), None);
}
