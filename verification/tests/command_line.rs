use vortex::cli::{
    approves, candidate_line, capability_line, choose_peer, echo_report, first_peer,
    forgotten_line, handshake_report, lan_route, locale_override, on_candidate,
    open_identity_store, pair_report, parse_args, peers_report, rollback_warning,
    session_headline, session_report, store_label, AutoEvent, AutoReconnect, AutoStep, Command,
    PeerChoice, StoreChoice, Via,
};
use vortex::fs_cli::{code_name, dispatch, entry_line, DirEntry, FsCommand, Listing, LsStep};
use vortex::lan::{HostAddr, LanCandidate};
use vortex::platform::{AdvCandidate, AdvPayload, PeerAddr};
use vortex::storage::peers::TrustedPeer;
use vortex::storage::StorageError;

fn words(line: &str) -> Vec<String> {
    line.split(' ').map(str::to_string).collect()
}

fn parsed(line: &str) -> Result<Command, String> {
    parse_args(&words(line), None)
}

#[test]
fn commands_without_an_address() {
    assert_eq!(parsed("vortex-l3d"), Ok(Command::Help));
    assert_eq!(parsed("vortex-l3d -h"), Ok(Command::Help));
    assert_eq!(parsed("vortex-l3d --help"), Ok(Command::Help));
    assert_eq!(parsed("vortex-l3d scan"), Ok(Command::Scan));
    assert_eq!(parsed("vortex-l3d identity"), Ok(Command::Identity));
    assert_eq!(parsed("vortex-l3d lan-reconnect"), Ok(Command::LanReconnect));
    assert_eq!(parsed("vortex-l3d peers"), Ok(Command::Peers));
    assert_eq!(
        parsed("vortex-l3d dance"),
        Ok(Command::Unknown { name: "dance".to_string() })
    );
}

#[test]
fn commands_with_an_address() {
    let addr = "AA:BB:CC:DD:EE:FF".to_string();
    assert_eq!(
        parsed("x connect AA:BB:CC:DD:EE:FF"),
        Ok(Command::Connect { addr: addr.clone() })
    );
    assert_eq!(
        parsed("x echo AA:BB:CC:DD:EE:FF"),
        Ok(Command::Echo { addr: addr.clone(), payload: b"vortex".to_vec() })
    );
    assert_eq!(
        parsed("x echo AA:BB:CC:DD:EE:FF 0aFF"),
        Ok(Command::Echo { addr: addr.clone(), payload: vec![0x0a, 0xff] })
    );
    assert_eq!(
        parsed("x handshake AA:BB:CC:DD:EE:FF"),
        Ok(Command::Handshake { addr: addr.clone() })
    );
    assert_eq!(
        parsed("x pair AA:BB:CC:DD:EE:FF --auto-approve"),
        Ok(Command::Pair { addr: addr.clone(), auto_approve: true })
    );
    assert_eq!(
        parsed("x reconnect AA:BB:CC:DD:EE:FF cafe"),
        Ok(Command::Reconnect { addr: addr.clone(), peer: Some("cafe".to_string()) })
    );
    assert_eq!(
        parsed("x auto-reconnect AA:BB:CC:DD:EE:FF --fast --max-attempts 3"),
        Ok(Command::AutoReconnect { addr: addr.clone(), fast: true, max_attempts: Some(3) })
    );
    assert_eq!(
        parsed("x auto-reconnect AA:BB:CC:DD:EE:FF --max-attempts many"),
        Ok(Command::AutoReconnect { addr, fast: false, max_attempts: None })
    );
}

#[test]
fn what_is_wrong_with_a_command_line() {
    for (line, usage) in [
        ("x connect", "usage: vortex-l3d connect <BD_ADDR>"),
        ("x echo", "usage: vortex-l3d echo <BD_ADDR> [hex_payload]"),
        ("x handshake", "usage: vortex-l3d handshake <BD_ADDR>"),
        ("x pair", "usage: vortex-l3d pair <BD_ADDR> [--auto-approve]"),
        ("x reconnect", "usage: vortex-l3d reconnect <BD_ADDR> [<peer_pub_hex>]"),
        (
            "x auto-reconnect",
            "usage: vortex-l3d auto-reconnect <BD_ADDR> [--fast] [--max-attempts N]",
        ),
        ("x forget", "usage: vortex-l3d forget <peer_static_pub_hex>"),
    ] {
        assert_eq!(parsed(line), Err(usage.to_string()));
    }
    assert_eq!(
        parse_args(&words("x connect nowhere"), Some("too short".to_string())),
        Err("bad address: too short".to_string())
    );
    assert_eq!(
        parsed("x forget abcd"),
        Err("peer_static_pub must be 32 bytes (64 hex chars)".to_string())
    );
    assert_eq!(parsed("x forget abc"), Err("bad hex: Odd number of digits".to_string()));
    assert_eq!(
        parsed("x echo A zz"),
        Err("bad hex payload: Invalid character 'z' at position 0".to_string())
    );
    assert_eq!(
        parsed(&format!("x forget {}", "0B".repeat(32))),
        Ok(Command::Forget { key: [0x0b; 32] })
    );
}

#[test]
fn the_identity_needs_a_keyring_or_courage() {
    assert_eq!(open_identity_store(Ok(()), false), Ok(StoreChoice::Keyring));
    assert_eq!(open_identity_store(Err(StorageError::NotFound), true), Ok(StoreChoice::Memory));
    assert_eq!(
        open_identity_store(Err(StorageError::Backend("no bus".to_string())), false),
        Err("secret service unavailable: backend error: no bus\n       \
             set VORTEX_INSECURE=1 to fall back to in-memory storage (dev only)."
            .to_string())
    );
    assert_eq!(store_label(StoreChoice::Keyring), "secret-service");
    assert_eq!(store_label(StoreChoice::Memory), "in-memory (INSECURE)");
}

#[test]
fn only_the_word_reject_rejects() {
    assert!(approves(false, "\n"));
    assert!(approves(false, "no\n"));
    assert!(!approves(false, "  ReJect \n"));
    assert!(approves(true, "reject"));
}

#[test]
fn a_pairing_hides_its_secret() {
    let quiet = pair_report(&[1; 32], &vec![0xab], &[0x5e; 32], 17, false);
    assert_eq!(quiet.secret_line, None);
    assert_eq!(
        quiet.lines,
        vec![
            "✅ Paired".to_string(),
            format!("  peer_static_pub : {}", "01".repeat(32)),
            "  transcript_hash : ab".to_string(),
            "  prs             : [redacted; set VORTEX_INSECURE_DEBUG=1 to reveal]".to_string(),
            "  trust persisted via Secret Service (paired_at = 17)".to_string(),
        ]
    );
    let loud = pair_report(&[1; 32], &vec![0xab], &[0x5e; 32], 17, true);
    assert_eq!(
        loud.secret_line,
        Some(format!("  prs             : {} [insecure debug]", "5e".repeat(32)))
    );
    assert_eq!(loud.lines.len(), 4);
}

#[test]
fn an_echo_is_compared() {
    let (lines, ok) = echo_report(&vec![1, 2], 0x30, 0x02, &vec![1, 2]);
    assert_eq!(
        lines,
        vec![
            "echo request   : type=0x30 sub=0x01 payload=0102",
            "echo response  : type=0x30 sub=0x02 payload=0102",
            "✅ round-trip ok — bytes identical",
        ]
    );
    assert_eq!(ok, Ok(()));
    for (ty, sub, got) in [(0x31, 2, vec![1, 2]), (0x30, 1, vec![1, 2]), (0x30, 2, vec![1])] {
        let (lines, bad) = echo_report(&vec![1, 2], ty, sub, &got);
        assert_eq!(lines.len(), 2);
        assert_eq!(bad, Err("echo response did not match request".to_string()));
    }
}

fn trusted(n: u8) -> TrustedPeer {
    TrustedPeer { peer_static_pub: [n; 32], prs: [0; 32], paired_at: n as u64, peer_name: None }
}

#[test]
fn a_peer_is_chosen_by_key_or_by_order() {
    assert_eq!(choose_peer(&None), Ok(PeerChoice::First));
    assert_eq!(choose_peer(&Some("07".repeat(32))), Ok(PeerChoice::Key([7; 32])));
    assert_eq!(
        choose_peer(&Some("07".to_string())),
        Err("peer_static_pub must be 32 bytes".to_string())
    );
    assert_eq!(
        choose_peer(&Some("7".to_string())),
        Err("bad hex: Odd number of digits".to_string())
    );
    assert_eq!(first_peer(Ok(vec![trusted(1), trusted(2)]), ""), Ok(trusted(1)));
    assert_eq!(
        first_peer(Ok(Vec::new()), " with `vortex-l3d pair`"),
        Err("no trusted peers — pair first with `vortex-l3d pair`".to_string())
    );
    assert_eq!(
        first_peer(Err(StorageError::Locked("k".to_string())), ""),
        Err("keyring locked: k".to_string())
    );
}

#[test]
fn a_counter_that_fell_back_is_warned_about() {
    assert_eq!(rollback_warning(Via::Radio, 5, 5), None);
    assert_eq!(
        rollback_warning(Via::Radio, 4, 5).as_deref(),
        Some("possible trust rollback: peer counter=4 local=5")
    );
    assert_eq!(
        rollback_warning(Via::Lan, 4, 5).as_deref(),
        Some("possible trust rollback (LAN): peer counter=4 local=5")
    );
    assert_eq!(
        rollback_warning(Via::Auto, 4, 5).as_deref(),
        Some("possible trust rollback (auto-reconnect): peer=4 local=5")
    );
}

#[test]
fn a_session_is_reported() {
    assert_eq!(
        session_report(&[2; 32], &vec![0xcd], false),
        vec![
            format!("  peer_static_pub : {}", "02".repeat(32)),
            "  transcript_hash : cd".to_string(),
            "  liveness        : FAIL".to_string(),
        ]
    );
    assert_eq!(session_report(&[2; 32], &vec![], true)[2], "  liveness        : ping/pong ok");
}

#[test]
fn a_route_over_the_local_network() {
    let v4 = HostAddr::V4([192, 168, 1, 9]);
    let v6 = HostAddr::V6([0; 16]);
    assert_eq!(
        lan_route(&Ok(Some(LanCandidate { addresses: vec![v6, v4], port: 99 }))),
        Ok((v4, 99))
    );
    assert_eq!(
        lan_route(&Ok(Some(LanCandidate { addresses: Vec::new(), port: 99 }))),
        Err("no usable IP address".to_string())
    );
    assert_eq!(
        lan_route(&Ok(None)),
        Err("no LAN candidate observed within timeout".to_string())
    );
    assert_eq!(lan_route(&Err("x".to_string())), Err("mdns: x".to_string()));
}

#[test]
fn a_locale_may_be_forced() {
    assert_eq!(locale_override(None, &Some("5".to_string())), None);
    let uz = || Some("uz".to_string());
    assert_eq!(
        locale_override(uz(), &Some("1700000000".to_string())),
        Some(("uz".to_string(), 1_700_000_000))
    );
    assert_eq!(
        locale_override(uz(), &Some("18446744073709551616".to_string())),
        Some(("uz".to_string(), 0))
    );
    assert_eq!(locale_override(uz(), &None), Some(("uz".to_string(), 0)));
}

#[test]
fn reconnecting_follows_the_schedule_and_gives_up() {
    let mut auto = AutoReconnect::new(false, None);
    let mut waits = Vec::new();
    let mut step = auto.step(AutoEvent::Begin);
    while let Some(ms) = step.after_ms {
        waits.push(ms);
        step = auto.step(AutoEvent::ConnectFailed("no".to_string()));
    }
    assert_eq!(waits, vec![0, 5_000, 15_000, 60_000, 300_000]);
    assert_eq!(step.said.as_deref(), Some("attempt 5 connect failed: no"));
    assert_eq!(
        step.farewell.as_deref(),
        Some("backoff schedule reached passive; abandoning auto-reconnect after 5 attempts")
    );
}

#[test]
fn reconnecting_stops_at_the_limit_or_at_success() {
    let mut auto = AutoReconnect::new(true, Some(2));
    assert_eq!(auto.step(AutoEvent::Begin).after_ms, Some(0));
    let step = auto.step(AutoEvent::ReconnectFailed("bad".to_string()));
    assert_eq!(step.said.as_deref(), Some("attempt 1 reconnect failed: bad"));
    assert_eq!(step.after_ms, Some(5));
    let step = auto.step(AutoEvent::ReconnectFailed("bad".to_string()));
    assert_eq!(step.after_ms, None);
    assert_eq!(step.farewell.as_deref(), Some("--max-attempts reached; exiting"));
    let mut auto = AutoReconnect::new(true, None);
    auto.step(AutoEvent::Begin);
    assert_eq!(
        auto.step(AutoEvent::Succeeded(vec![0xab])),
        AutoStep {
            said: Some("✅ attempt 1 succeeded — transcript_hash=ab".to_string()),
            after_ms: None,
            farewell: None,
        }
    );
}

#[test]
fn failures_of_both_kinds_count_alike() {
    let mut auto = AutoReconnect::new(false, Some(4));
    let mut step = auto.step(AutoEvent::Begin);
    let mut waits = Vec::new();
    for connect in [true, false, false, true] {
        waits.push(step.after_ms);
        let why = "no".to_string();
        step = auto.step(if connect {
            AutoEvent::ConnectFailed(why)
        } else {
            AutoEvent::ReconnectFailed(why)
        });
    }
    assert_eq!(waits, vec![Some(0), Some(5_000), Some(15_000), Some(60_000)]);
    assert_eq!(step.after_ms, None);
    assert_eq!(step.farewell.as_deref(), Some("--max-attempts reached; exiting"));
}

#[test]
fn trusted_peers_are_listed() {
    assert_eq!(peers_report(&Vec::new()), vec!["(no trusted peers)"]);
    assert_eq!(
        peers_report(&vec![trusted(1), trusted(2)]),
        vec![
            "trusted peers (2):".to_string(),
            format!("  [0] static_pub = {}  paired_at = 1", "01".repeat(32)),
            format!("  [1] static_pub = {}  paired_at = 2", "02".repeat(32)),
        ]
    );
    assert_eq!(forgotten_line(&[9; 32]), format!("forgot peer {}", "09".repeat(32)));
}

#[test]
fn a_scan_line_reads_like_a_table() {
    let mut c = AdvCandidate {
        addr: PeerAddr([0xAA, 0xBB, 0xCC, 0xDD, 0xEE, 0xFF]),
        payload: AdvPayload { pairable: true, trusted_presence: false, payload_8: [1; 8] },
        rssi: Some(-61),
        local_name: Some("Pixel".to_string()),
    };
    assert_eq!(
        candidate_line(&c),
        format!(
            " vortex AA:BB:CC:DD:EE:FF  rssi=-61 dBm  mode={:<16}  payload8=0101010101010101  \
             name=Pixel",
            "pairable"
        )
    );
    assert_eq!(
        on_candidate(&c, 1_518_568_087),
        format!("[2018-02-14T00:28:07Z]{}", candidate_line(&c))
    );
    c.payload.pairable = false;
    c.payload.trusted_presence = true;
    c.rssi = None;
    c.local_name = None;
    assert_eq!(
        candidate_line(&c),
        " vortex AA:BB:CC:DD:EE:FF  rssi=?  mode=trusted-presence  payload8=0101010101010101  \
         name=(no name)"
    );
    c.payload.trusted_presence = false;
    assert!(candidate_line(&c).contains("mode=unknown           payload8"));
}

#[test]
fn file_commands_are_told_apart() {
    assert_eq!(dispatch(&words("x --fs-umount --fs-mount")), FsCommand::Unmount);
    assert_eq!(dispatch(&words("x --fs-ls --fs-mount")), FsCommand::Mount);
    assert_eq!(dispatch(&words("x --fs-ls")), FsCommand::List(String::new()));
    assert_eq!(dispatch(&words("x --fs-ls /a --fs-ls /b")), FsCommand::List("/a".to_string()));
    assert_eq!(dispatch(&words("x --fs-stat")), FsCommand::Stat(None));
    assert_eq!(dispatch(&words("x --fs-stat /a")), FsCommand::Stat(Some("/a".to_string())));
    assert_eq!(dispatch(&words("x --fs-get /a")), FsCommand::Get(None));
    assert_eq!(
        dispatch(&words("x --fs-get /a b")),
        FsCommand::Get(Some(("/a".to_string(), "b".to_string())))
    );
    assert_eq!(dispatch(&words("x")), FsCommand::Other);
}

#[test]
fn a_listing_ends() {
    let mut l = Listing::new();
    assert_eq!(l.on_page(3, Some(17)), LsStep::More { cursor: 17 });
    assert_eq!(l.on_page(2, None), LsStep::Done);
    assert_eq!(l.total, 5);
    assert_eq!(l.pages(), 2);
    let mut l = Listing::new();
    let mut pages = 0u32;
    loop {
        match l.on_page(0, Some(pages)) {
            LsStep::More { .. } => pages += 1,
            LsStep::GaveUp { pages: n } => {
                assert_eq!((n, pages), (10_001, 10_000));
                break;
            }
            LsStep::Done => unreachable!(),
        }
    }
}

#[test]
fn errors_of_the_phone_have_names() {
    for (code, words) in [
        (2, "no such file"),
        (13, "not permitted"),
        (5, "I/O error"),
        (9, "bad handle"),
        (22, "invalid request"),
        (95, "not supported"),
        (21, "is a directory"),
        (30, "read-only"),
        (1_234, "unknown error"),
    ] {
        assert_eq!(code_name(code), words);
    }
}

#[test]
fn an_entry_is_one_line_of_columns() {
    let mut e = DirEntry {
        name: "DCIM".to_string(),
        path: "content://x".to_string(),
        is_dir: true,
        size: 0,
    };
    assert_eq!(entry_line(&e), format!("fs-cli: dir \t{:>10}\tDCIM\tcontent://x", 0));
    e.is_dir = false;
    e.size = 12_345_678_901;
    assert_eq!(entry_line(&e), "fs-cli: file\t12345678901\tDCIM\tcontent://x");
}

#[test]
fn headlines_of_sessions() {
    assert_eq!(session_headline(&[2; 32], &None), "\u{2705} Trusted reconnect ok");
    assert_eq!(
        session_headline(&[2; 32], &Some("10.0.0.2:5".to_string())),
        "\u{2705} LAN reconnect ok \u{2014} peer 0202020202020202 via 10.0.0.2:5"
    );
    assert_eq!(
        handshake_report(&[0xab; 32], &vec![1, 2]),
        vec![
            "\u{2705} Noise XX completed".to_string(),
            "  transcript_hash : 0102".to_string(),
            format!("  peer_static_pub : {}", "ab".repeat(32)),
        ]
    );
    for (version, bits) in [(1u8, 0u16), (0xff, 0xabcd), (0x0f, 0x000e)] {
        assert_eq!(
            capability_line(version, bits),
            format!("capability: version=0x{version:02x} capability_bits=0x{bits:04x}")
        );
    }
}
