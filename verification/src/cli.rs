//! The command line of the daemon: what is asked for, what is tried in which
//! order, and what is said about it.

use vstd::prelude::*;
use vstd::slice::slice_subrange;

use crate::codec;
use crate::codec::{hex_decode, hex_encode};
use crate::keys::key_at;
use crate::lan;
use crate::lan::{preferred_address, HostAddr, LanCandidate};
use crate::platform;
use crate::platform::gatt;
use crate::platform::gatt::signed_text;
use crate::platform::AdvCandidate;
use crate::storage;
use crate::storage::peers;
use crate::storage::peers::{TrustedPeer, TrustedPeerView};
use crate::storage::StorageResult;
use crate::text;
use crate::text::{decimal_text, pad, parse_unsigned, same_text, to_ascii_lowercase, trim};

verus! {

/// `a` and then `b`.
fn both(a: &str, b: &str) -> (r: String)
    ensures
        r@ == a@ + b@,
{
    let mut m = a.to_string();
    m.append(b);
    m
}

// ---------------------------------------------------------------------------
// What is asked for
// ---------------------------------------------------------------------------

/// What the daemon is asked to do.
#[derive(Debug, PartialEq, Eq)]
pub enum Command<S = String, B = Vec<u8>, K = [u8; 32]> {
    Scan,
    Identity,
    Connect { addr: S },
    Echo { addr: S, payload: B },
    Handshake { addr: S },
    Pair { addr: S, auto_approve: bool },
    Reconnect { addr: S, peer: Option<S> },
    AutoReconnect { addr: S, fast: bool, max_attempts: Option<usize> },
    LanReconnect,
    Peers,
    Forget { key: K },
    Help,
    /// There is no such command.
    Unknown { name: S },
}

/// What a command says.
pub type SpecCommand = Command<Seq<char>, Seq<u8>, Seq<u8>>;

impl View for Command {
    type V = SpecCommand;

    open spec fn view(&self) -> SpecCommand {
        match self {
            Command::Scan => Command::Scan,
            Command::Identity => Command::Identity,
            Command::Connect { addr } => Command::Connect { addr: addr@ },
            Command::Echo { addr, payload } => Command::Echo { addr: addr@, payload: payload@ },
            Command::Handshake { addr } => Command::Handshake { addr: addr@ },
            Command::Pair { addr, auto_approve } => Command::Pair {
                addr: addr@,
                auto_approve: *auto_approve,
            },
            Command::Reconnect { addr, peer } => Command::Reconnect {
                addr: addr@,
                peer: text::maybe(*peer),
            },
            Command::AutoReconnect { addr, fast, max_attempts } => Command::AutoReconnect {
                addr: addr@,
                fast: *fast,
                max_attempts: *max_attempts,
            },
            Command::LanReconnect => Command::LanReconnect,
            Command::Peers => Command::Peers,
            Command::Forget { key } => Command::Forget { key: key@ },
            Command::Help => Command::Help,
            Command::Unknown { name } => Command::Unknown { name: name@ },
        }
    }
}

/// The words of a command line that holds one at this place.
pub open spec fn word(args: Seq<Seq<char>>, i: int) -> Option<Seq<char>> {
    if 0 <= i < args.len() {
        Some(args[i])
    } else {
        None
    }
}

/// The command that is asked for.
pub open spec fn verb(args: Seq<Seq<char>>) -> Seq<char> {
    match word(args, 1) {
        Some(w) => w,
        None => "help"@,
    }
}

/// How a command that needs an address is used; empty for the others.
pub open spec fn usage(v: Seq<char>) -> Seq<char> {
    if v == "connect"@ {
        "usage: vortex-l3d connect <BD_ADDR>"@
    } else if v == "echo"@ {
        "usage: vortex-l3d echo <BD_ADDR> [hex_payload]"@
    } else if v == "handshake"@ {
        "usage: vortex-l3d handshake <BD_ADDR>"@
    } else if v == "pair"@ {
        "usage: vortex-l3d pair <BD_ADDR> [--auto-approve]"@
    } else if v == "reconnect"@ {
        "usage: vortex-l3d reconnect <BD_ADDR> [<peer_pub_hex>]"@
    } else {
        "usage: vortex-l3d auto-reconnect <BD_ADDR> [--fast] [--max-attempts N]"@
    }
}

/// The command needs an address.
pub open spec fn wants_addr(v: Seq<char>) -> bool {
    v == "connect"@ || v == "echo"@ || v == "handshake"@ || v == "pair"@ || v == "reconnect"@ || v
        == "auto-reconnect"@
}

/// The place of the first `w`, or the number of words.
pub open spec fn place_of(args: Seq<Seq<char>>, w: Seq<char>) -> int
    decreases args.len(),
{
    if args.len() == 0 || args[0] == w {
        0
    } else {
        1 + place_of(args.drop_first(), w)
    }
}

/// The number behind the first `--max-attempts`, when there is one.
pub open spec fn attempts_in(args: Seq<Seq<char>>) -> Option<usize> {
    let at = place_of(args, "--max-attempts"@);
    if at < args.len() {
        match word(args, at + 1) {
            Some(w) => match text::parsed_unsigned(w, usize::MAX as nat) {
                Some(n) => Some(n as usize),
                None => None,
            },
            None => None,
        }
    } else {
        None
    }
}

/// What a command that has an address asks for.
pub open spec fn addressed(args: Seq<Seq<char>>, addr: Seq<char>) -> Result<
    SpecCommand,
    Seq<char>,
> {
    let v = verb(args);
    if v == "connect"@ {
        Ok(Command::Connect { addr })
    } else if v == "echo"@ {
        match word(args, 3) {
            Some(hex) => if codec::is_hex_text(hex) {
                Ok(Command::Echo { addr, payload: codec::hex_bytes(hex) })
            } else {
                Err("bad hex payload: "@ + codec::hex_complaint(hex))
            },
            None => Ok(Command::Echo { addr, payload: default_payload() }),
        }
    } else if v == "handshake"@ {
        Ok(Command::Handshake { addr })
    } else if v == "pair"@ {
        Ok(Command::Pair { addr, auto_approve: args.contains("--auto-approve"@) })
    } else if v == "reconnect"@ {
        Ok(Command::Reconnect { addr, peer: word(args, 3) })
    } else {
        Ok(
            Command::AutoReconnect {
                addr,
                fast: args.contains("--fast"@),
                max_attempts: attempts_in(args),
            },
        )
    }
}

/// What an echo sends when nothing else is asked for: the word `vortex`.
pub open spec fn default_payload() -> Seq<u8> {
    seq![118u8, 111u8, 114u8, 116u8, 101u8, 120u8]
}

/// What a command line asks for, or what is wrong with it. `bad_addr` is the
/// complaint about its third word as an address, when that is none.
pub open spec fn asked_for(args: Seq<Seq<char>>, bad_addr: Option<Seq<char>>) -> Result<
    SpecCommand,
    Seq<char>,
> {
    let v = verb(args);
    if wants_addr(v) {
        match word(args, 2) {
            None => Err(usage(v)),
            Some(addr) => match bad_addr {
                Some(e) => Err("bad address: "@ + e),
                None => addressed(args, addr),
            },
        }
    } else if v == "scan"@ {
        Ok(Command::Scan)
    } else if v == "identity"@ {
        Ok(Command::Identity)
    } else if v == "lan-reconnect"@ {
        Ok(Command::LanReconnect)
    } else if v == "peers"@ {
        Ok(Command::Peers)
    } else if v == "forget"@ {
        match word(args, 2) {
            None => Err("usage: vortex-l3d forget <peer_static_pub_hex>"@),
            Some(hex) => if !codec::is_hex_text(hex) {
                Err("bad hex: "@ + codec::hex_complaint(hex))
            } else if hex.len() != 64 {
                Err("peer_static_pub must be 32 bytes (64 hex chars)"@)
            } else {
                Ok(Command::Forget { key: codec::hex_bytes(hex) })
            },
        }
    } else if v == "help"@ || v == "-h"@ || v == "--help"@ {
        Ok(Command::Help)
    } else {
        Ok(Command::Unknown { name: v })
    }
}

/// What a result with a text says.
pub open spec fn command_view(r: Result<Command, String>) -> Result<SpecCommand, Seq<char>> {
    match r {
        Ok(c) => Ok(c@),
        Err(e) => Err(e@),
    }
}

/// The place of the first `w`, or the number of words.
fn find_word(args: &Vec<String>, w: &str) -> (r: usize)
    ensures
        r <= args@.len(),
        r < args@.len() <==> text::texts(args@).contains(w@),
        r == place_of(text::texts(args@), w@),
{
    let ghost words = text::texts(args@);
    let mut i: usize = 0;
    assert(words.skip(0) =~= words);
    while i < args.len()
        invariant
            i <= args@.len(),
            words == text::texts(args@),
            forall|j: int| 0 <= j < i ==> words[j] != w@,
            place_of(words, w@) == i + place_of(words.skip(i as int), w@),
        decreases args.len() - i,
    {
        assert(words.skip(i as int)[0] == args@[i as int]@);
        assert(words.skip(i as int).drop_first() =~= words.skip(i + 1));
        if same_text(args[i].as_str(), w) {
            assert(words[i as int] == w@);
            return i;
        }
        i += 1;
    }
    i
}

/// The number behind the first `--max-attempts`.
fn max_attempts(args: &Vec<String>) -> (r: Option<usize>)
    ensures
        r == attempts_in(text::texts(args@)),
{
    let at: usize = find_word(args, "--max-attempts");
    if at < args.len() && at + 1 < args.len() {
        match parse_unsigned(args[at + 1].as_str(), usize::MAX as u64) {
            Some(n) => Some(n as usize),
            None => None,
        }
    } else {
        None
    }
}

/// What a command that has an address asks for.
fn parse_addressed(args: &Vec<String>, v: &str, addr: String) -> (r: Result<Command, String>)
    requires
        v@ == verb(text::texts(args@)),
    ensures
        command_view(r) == addressed(text::texts(args@), addr@),
{
    if same_text(v, "connect") {
        return Ok(Command::Connect { addr });
    }
    if same_text(v, "echo") {
        if args.len() > 3 {
            return match hex_decode(args[3].as_str()) {
                Ok(payload) => Ok(Command::Echo { addr, payload }),
                Err(e) => Err(both("bad hex payload: ", e.as_str())),
            };
        }
        let payload: Vec<u8> = vec![118u8, 111u8, 114u8, 116u8, 101u8, 120u8];
        assert(payload@ =~= default_payload());
        return Ok(Command::Echo { addr, payload });
    }
    if same_text(v, "handshake") {
        return Ok(Command::Handshake { addr });
    }
    if same_text(v, "pair") {
        let auto_approve = find_word(args, "--auto-approve") < args.len();
        return Ok(Command::Pair { addr, auto_approve });
    }
    if same_text(v, "reconnect") {
        let peer = if args.len() > 3 {
            Some(args[3].as_str().to_string())
        } else {
            None
        };
        return Ok(Command::Reconnect { addr, peer });
    }
    let fast = find_word(args, "--fast") < args.len();
    Ok(Command::AutoReconnect { addr, fast, max_attempts: max_attempts(args) })
}

/// How a command that needs an address is used; `None` for the others.
fn usage_of(v: &str) -> (r: Option<String>)
    ensures
        r is Some <==> wants_addr(v@),
        r is Some ==> r->0@ == usage(v@),
{
    if same_text(v, "connect") {
        Some("usage: vortex-l3d connect <BD_ADDR>".to_string())
    } else if same_text(v, "echo") {
        Some("usage: vortex-l3d echo <BD_ADDR> [hex_payload]".to_string())
    } else if same_text(v, "handshake") {
        Some("usage: vortex-l3d handshake <BD_ADDR>".to_string())
    } else if same_text(v, "pair") {
        Some("usage: vortex-l3d pair <BD_ADDR> [--auto-approve]".to_string())
    } else if same_text(v, "reconnect") {
        Some("usage: vortex-l3d reconnect <BD_ADDR> [<peer_pub_hex>]".to_string())
    } else if same_text(v, "auto-reconnect") {
        Some("usage: vortex-l3d auto-reconnect <BD_ADDR> [--fast] [--max-attempts N]".to_string())
    } else {
        None
    }
}

/// What a command line asks for, or what is wrong with it. The first word is the
/// program. `bad_addr` is the complaint about the third word as an address, when
/// that is none.
pub fn parse_args(args: &Vec<String>, bad_addr: Option<String>) -> (r: Result<Command, String>)
    ensures
        command_view(r) == asked_for(text::texts(args@), text::maybe(bad_addr)),
{
    let v = if args.len() > 1 {
        args[1].as_str().to_string()
    } else {
        "help".to_string()
    };
    let name = v.as_str();
    match usage_of(name) {
        Some(u) => {
            if args.len() <= 2 {
                return Err(u);
            }
            return match bad_addr {
                Some(e) => Err(both("bad address: ", e.as_str())),
                None => parse_addressed(args, name, args[2].as_str().to_string()),
            };
        },
        None => {},
    }
    if same_text(name, "scan") {
        Ok(Command::Scan)
    } else if same_text(name, "identity") {
        Ok(Command::Identity)
    } else if same_text(name, "lan-reconnect") {
        Ok(Command::LanReconnect)
    } else if same_text(name, "peers") {
        Ok(Command::Peers)
    } else if same_text(name, "forget") {
        if args.len() <= 2 {
            return Err("usage: vortex-l3d forget <peer_static_pub_hex>".to_string());
        }
        match hex_decode(args[2].as_str()) {
            Ok(bytes) => {
                if bytes.len() != 32 {
                    return Err("peer_static_pub must be 32 bytes (64 hex chars)".to_string());
                }
                let key = key_at(bytes.as_slice(), 0);
                assert(key@ =~= bytes@);
                Ok(Command::Forget { key })
            },
            Err(e) => Err(both("bad hex: ", e.as_str())),
        }
    } else if same_text(name, "help") || same_text(name, "-h") || same_text(name, "--help") {
        Ok(Command::Help)
    } else {
        Ok(Command::Unknown { name: v })
    }
}

// ---------------------------------------------------------------------------
// Where the identity comes from
// ---------------------------------------------------------------------------

/// Where the identity of this device is kept.
#[derive(Debug, Clone, Copy, PartialEq, Eq, Structural)]
pub enum StoreChoice {
    Keyring,
    /// In memory, to be forgotten at the end of the process.
    Memory,
}

/// Where the identity is kept, given whether there is a keyring: without one in
/// memory, but only when that is asked for.
pub fn open_identity_store(keyring: StorageResult<()>, insecure: bool) -> (r: Result<
    StoreChoice,
    String,
>)
    ensures
        match keyring {
            Ok(_) => r == Ok::<StoreChoice, String>(StoreChoice::Keyring),
            Err(e) => if insecure {
                r == Ok::<StoreChoice, String>(StoreChoice::Memory)
            } else {
                r is Err && r->Err_0@ == "secret service unavailable: "@ + storage::error_text(e@)
                    + "\n       set VORTEX_INSECURE=1 to fall back to in-memory storage (dev only)."@
            },
        },
{
    match keyring {
        Ok(_) => Ok(StoreChoice::Keyring),
        Err(e) => {
            if insecure {
                return Ok(StoreChoice::Memory);
            }
            let mut m = both("secret service unavailable: ", e.text().as_str());
            m.append(
                "\n       set VORTEX_INSECURE=1 to fall back to in-memory storage (dev only).",
            );
            Err(m)
        },
    }
}

/// What the place is called.
pub fn store_label(choice: StoreChoice) -> (r: String)
    ensures
        r@ == match choice {
            StoreChoice::Keyring => "secret-service"@,
            StoreChoice::Memory => "in-memory (INSECURE)"@,
        },
{
    match choice {
        StoreChoice::Keyring => "secret-service".to_string(),
        StoreChoice::Memory => "in-memory (INSECURE)".to_string(),
    }
}

// ---------------------------------------------------------------------------
// Pairing
// ---------------------------------------------------------------------------

/// Whether the user approves: anything but the word `reject` does.
pub fn approves(auto_approve: bool, line: &str) -> (r: bool)
    ensures
        r == (auto_approve || text::ascii_lowered(text::trimmed(line@)) != "reject"@),
{
    if auto_approve {
        return true;
    }
    let word = trim(line);
    let lower = to_ascii_lowercase(word.as_str());
    !same_text(lower.as_str(), "reject")
}

/// What is said after a pairing.
pub struct PairReport {
    /// To standard output, a line each.
    pub lines: Vec<String>,
    /// To standard error, where debugging with secrets is asked for.
    pub secret_line: Option<String>,
}

/// What is said after a pairing, to standard output.
pub open spec fn pair_lines(
    peer: Seq<u8>,
    transcript: Seq<u8>,
    paired_at: u64,
    reveal: bool,
) -> Seq<Seq<char>> {
    let head = seq![
        "\u{2705} Paired"@,
        "  peer_static_pub : "@ + codec::hex_text(peer),
        "  transcript_hash : "@ + codec::hex_text(transcript),
    ];
    let redacted = if reveal {
        Seq::empty()
    } else {
        seq!["  prs             : [redacted; set VORTEX_INSECURE_DEBUG=1 to reveal]"@]
    };
    head + redacted + seq![
        "  trust persisted via Secret Service (paired_at = "@ + text::decimal(paired_at as nat)
            + ")"@,
    ]
}

/// What is said after a pairing. The shared secret is said only where debugging
/// with secrets is asked for, and never to standard output.
pub fn pair_report(
    peer: &[u8; 32],
    transcript: &Vec<u8>,
    prs: &[u8; 32],
    paired_at: u64,
    reveal: bool,
) -> (r: PairReport)
    requires
        2 * transcript@.len() <= usize::MAX,
    ensures
        text::texts(r.lines@) == pair_lines(peer@, transcript@, paired_at, reveal),
        text::maybe(r.secret_line) == if reveal {
            Some("  prs             : "@ + codec::hex_text(prs@) + " [insecure debug]"@)
        } else {
            None
        },
{
    let mut lines: Vec<String> = Vec::new();
    lines.push("\u{2705} Paired".to_string());
    lines.push(both("  peer_static_pub : ", hex_encode(peer).as_str()));
    lines.push(both("  transcript_hash : ", hex_encode(transcript.as_slice()).as_str()));
    let mut secret_line: Option<String> = None;
    if reveal {
        let mut m = both("  prs             : ", hex_encode(prs).as_str());
        m.append(" [insecure debug]");
        secret_line = Some(m);
    } else {
        lines.push(
            "  prs             : [redacted; set VORTEX_INSECURE_DEBUG=1 to reveal]".to_string(),
        );
    }
    let mut m = both(
        "  trust persisted via Secret Service (paired_at = ",
        decimal_text(paired_at).as_str(),
    );
    m.append(")");
    lines.push(m);
    assert(text::texts(lines@) =~= pair_lines(peer@, transcript@, paired_at, reveal));
    PairReport { lines, secret_line }
}

// ---------------------------------------------------------------------------
// Echo
// ---------------------------------------------------------------------------

/// A byte in two digits.
pub open spec fn two_digits(b: u8) -> Seq<char> {
    codec::hex_text(seq![b])
}

/// What is said of an echo.
pub open spec fn echo_lines(sent: Seq<u8>, ty: u8, sub: u8, got: Seq<u8>) -> Seq<Seq<char>> {
    let asked = "echo request   : type=0x30 sub=0x01 payload="@ + codec::hex_text(sent);
    let answered = "echo response  : type=0x"@ + two_digits(ty) + " sub=0x"@ + two_digits(sub)
        + " payload="@ + codec::hex_text(got);
    if echo_ok(sent, ty, sub, got) {
        seq![asked, answered, "\u{2705} round-trip ok \u{2014} bytes identical"@]
    } else {
        seq![asked, answered]
    }
}

/// The answer is the echo of what was sent.
pub open spec fn echo_ok(sent: Seq<u8>, ty: u8, sub: u8, got: Seq<u8>) -> bool {
    ty == 0x30 && sub == 0x02 && got == sent
}

/// A byte in two digits.
fn two_digit_text(b: u8) -> (r: String)
    ensures
        r@ == two_digits(b),
{
    let one: [u8; 1] = [b];
    assert(one@ =~= seq![b]);
    hex_encode(&one)
}

/// What is said of an echo, and whether it is one.
pub fn echo_report(sent: &Vec<u8>, ty: u8, sub: u8, got: &Vec<u8>) -> (r: (Vec<String>, Result<
    (),
    String,
>))
    requires
        2 * sent@.len() <= usize::MAX,
        2 * got@.len() <= usize::MAX,
    ensures
        text::texts(r.0@) == echo_lines(sent@, ty, sub, got@),
        r.1 is Ok <==> echo_ok(sent@, ty, sub, got@),
        r.1 matches Err(e) ==> e@ == "echo response did not match request"@,
{
    let pretty_in = hex_encode(sent.as_slice());
    let pretty_out = hex_encode(got.as_slice());
    let mut lines: Vec<String> = Vec::new();
    lines.push(both("echo request   : type=0x30 sub=0x01 payload=", pretty_in.as_str()));
    let mut m = both("echo response  : type=0x", two_digit_text(ty).as_str());
    m.append(" sub=0x");
    m.append(two_digit_text(sub).as_str());
    m.append(" payload=");
    m.append(pretty_out.as_str());
    lines.push(m);
    let same = same_text(pretty_out.as_str(), pretty_in.as_str());
    proof {
        codec::lemma_hex_round_trip(sent@);
        codec::lemma_hex_round_trip(got@);
        assert(same <==> got@ == sent@);
    }
    if ty == 0x30 && sub == 0x02 && same {
        lines.push("\u{2705} round-trip ok \u{2014} bytes identical".to_string());
        assert(text::texts(lines@) =~= echo_lines(sent@, ty, sub, got@));
        (lines, Ok(()))
    } else {
        assert(text::texts(lines@) =~= echo_lines(sent@, ty, sub, got@));
        (lines, Err("echo response did not match request".to_string()))
    }
}

// ---------------------------------------------------------------------------
// Reconnecting
// ---------------------------------------------------------------------------

/// Which trusted peer is meant.
#[derive(Debug, PartialEq, Eq)]
pub enum PeerChoice<K = [u8; 32]> {
    /// The one with this key.
    Key(K),
    /// The first one.
    First,
}

impl View for PeerChoice {
    type V = PeerChoice<Seq<u8>>;

    open spec fn view(&self) -> PeerChoice<Seq<u8>> {
        match self {
            PeerChoice::Key(k) => PeerChoice::Key(k@),
            PeerChoice::First => PeerChoice::First,
        }
    }
}

/// Which trusted peer is meant by a key in hexadecimal, or by none.
pub open spec fn meant(hex: Option<Seq<char>>) -> Result<PeerChoice<Seq<u8>>, Seq<char>> {
    match hex {
        None => Ok(PeerChoice::First),
        Some(h) => if !codec::is_hex_text(h) {
            Err("bad hex: "@ + codec::hex_complaint(h))
        } else if h.len() != 64 {
            Err("peer_static_pub must be 32 bytes"@)
        } else {
            Ok(PeerChoice::Key(codec::hex_bytes(h)))
        },
    }
}

/// Which trusted peer is meant by a key in hexadecimal, or by none.
pub fn choose_peer(hex: &Option<String>) -> (r: Result<PeerChoice, String>)
    ensures
        match meant(text::maybe(*hex)) {
            Ok(c) => r is Ok && r->Ok_0@ == c,
            Err(e) => r is Err && r->Err_0@ == e,
        },
{
    match hex {
        None => Ok(PeerChoice::First),
        Some(h) => match hex_decode(h.as_str()) {
            Err(e) => Err(both("bad hex: ", e.as_str())),
            Ok(bytes) => {
                if bytes.len() != 32 {
                    return Err("peer_static_pub must be 32 bytes".to_string());
                }
                let key = key_at(bytes.as_slice(), 0);
                assert(key@ =~= bytes@);
                Ok(PeerChoice::Key(key))
            },
        },
    }
}

/// The first of the trusted peers. `hint` is what the complaint says besides.
pub fn first_peer(list: StorageResult<Vec<TrustedPeer>>, hint: &str) -> (r: Result<
    TrustedPeer,
    String,
>)
    ensures
        match list {
            Ok(l) => if l@.len() > 0 {
                r == Ok::<TrustedPeer, String>(l@[0])
            } else {
                r is Err && r->Err_0@ == "no trusted peers \u{2014} pair first"@ + hint@
            },
            Err(e) => r is Err && r->Err_0@ == storage::error_text(e@),
        },
{
    match list {
        Ok(l) => {
            if l.len() > 0 {
                let mut l = l;
                Ok(l.remove(0))
            } else {
                Err(both("no trusted peers \u{2014} pair first", hint))
            }
        },
        Err(e) => Err(e.text()),
    }
}

/// How a peer was reached.
#[derive(Debug, Clone, Copy, PartialEq, Eq, Structural)]
pub enum Via {
    Radio,
    Lan,
    /// By trying again and again.
    Auto,
}

/// What the warning about a peer's counter begins with.
pub open spec fn warning_head(via: Via) -> Seq<char> {
    match via {
        Via::Radio => "possible trust rollback: peer counter="@,
        Via::Lan => "possible trust rollback (LAN): peer counter="@,
        Via::Auto => "possible trust rollback (auto-reconnect): peer="@,
    }
}

/// The warning about a peer whose counter lies below this one: its trust may have
/// been restored from an old backup.
pub fn rollback_warning(via: Via, peer: u64, local: u64) -> (r: Option<String>)
    ensures
        text::maybe(r) == if peer < local {
            Some(
                warning_head(via) + text::decimal(peer as nat) + " local="@ + text::decimal(
                    local as nat,
                ),
            )
        } else {
            None
        },
{
    if peer >= local {
        return None;
    }
    let head = match via {
        Via::Radio => "possible trust rollback: peer counter=",
        Via::Lan => "possible trust rollback (LAN): peer counter=",
        Via::Auto => "possible trust rollback (auto-reconnect): peer=",
    };
    let mut m = both(head, decimal_text(peer).as_str());
    m.append(" local=");
    m.append(decimal_text(local).as_str());
    Some(m)
}

/// What is said of a session that came about.
pub open spec fn session_lines(peer: Seq<u8>, transcript: Seq<u8>, alive: bool) -> Seq<Seq<char>> {
    seq![
        "  peer_static_pub : "@ + codec::hex_text(peer),
        "  transcript_hash : "@ + codec::hex_text(transcript),
        "  liveness        : "@ + if alive {
            "ping/pong ok"@
        } else {
            "FAIL"@
        },
    ]
}

/// What is said of a session that came about.
pub fn session_report(peer: &[u8; 32], transcript: &Vec<u8>, alive: bool) -> (r: Vec<String>)
    requires
        2 * transcript@.len() <= usize::MAX,
    ensures
        text::texts(r@) == session_lines(peer@, transcript@, alive),
{
    let mut lines: Vec<String> = Vec::new();
    lines.push(both("  peer_static_pub : ", hex_encode(peer).as_str()));
    lines.push(both("  transcript_hash : ", hex_encode(transcript.as_slice()).as_str()));
    lines.push(
        both(
            "  liveness        : ",
            if alive {
                "ping/pong ok"
            } else {
                "FAIL"
            },
        ),
    );
    assert(text::texts(lines@) =~= session_lines(peer@, transcript@, alive));
    lines
}

/// The headline of a session that came about over the radio or the local network.
pub fn session_headline(peer: &[u8; 32], remote: &Option<String>) -> (r: String)
    ensures
        r@ == match *remote {
            None => "\u{2705} Trusted reconnect ok"@,
            Some(at) => "\u{2705} LAN reconnect ok \u{2014} peer "@ + codec::hex_text(peer@.take(8))
                + " via "@ + at@,
        },
{
    match remote {
        None => "\u{2705} Trusted reconnect ok".to_string(),
        Some(at) => {
            let head = slice_subrange(peer.as_slice(), 0, 8);
            assert(head@ =~= peer@.take(8));
            let mut m = both("\u{2705} LAN reconnect ok \u{2014} peer ", hex_encode(head).as_str());
            m.append(" via ");
            m.append(at.as_str());
            m
        },
    }
}

/// What is said of a first handshake.
pub open spec fn handshake_lines(peer: Seq<u8>, transcript: Seq<u8>) -> Seq<Seq<char>> {
    seq![
        "\u{2705} Noise XX completed"@,
        "  transcript_hash : "@ + codec::hex_text(transcript),
        "  peer_static_pub : "@ + codec::hex_text(peer),
    ]
}

/// What is said of a first handshake.
pub fn handshake_report(peer: &[u8; 32], transcript: &Vec<u8>) -> (r: Vec<String>)
    requires
        2 * transcript@.len() <= usize::MAX,
    ensures
        text::texts(r@) == handshake_lines(peer@, transcript@),
{
    let mut lines: Vec<String> = Vec::new();
    lines.push("\u{2705} Noise XX completed".to_string());
    lines.push(both("  transcript_hash : ", hex_encode(transcript.as_slice()).as_str()));
    lines.push(both("  peer_static_pub : ", hex_encode(peer).as_str()));
    assert(text::texts(lines@) =~= handshake_lines(peer@, transcript@));
    lines
}

/// What is said of a peer's capabilities.
pub fn capability_line(version: u8, bits: u16) -> (r: String)
    ensures
        r@ == "capability: version=0x"@ + two_digits(version) + " capability_bits=0x"@ + two_digits(
            (bits / 256) as u8,
        ) + two_digits((bits % 256) as u8),
{
    let mut m = both("capability: version=0x", two_digit_text(version).as_str());
    m.append(" capability_bits=0x");
    m.append(two_digit_text((bits / 256) as u8).as_str());
    m.append(two_digit_text((bits % 256) as u8).as_str());
    m
}

/// Where a peer on the local network is reached.
pub open spec fn no_lan_route(found: Result<Option<LanCandidate>, Seq<char>>) -> Option<Seq<char>> {
    match found {
        Err(e) => Some("mdns: "@ + e),
        Ok(None) => Some("no LAN candidate observed within timeout"@),
        Ok(Some(c)) => if c.addresses@.len() > 0 {
            None
        } else {
            Some("no usable IP address"@)
        },
    }
}

/// Where a peer on the local network is reached, given what looking for it found.
pub fn lan_route(found: &Result<Option<LanCandidate>, String>) -> (r: Result<
    (HostAddr, u16),
    String,
>)
    ensures
        match no_lan_route(
            match *found {
                Ok(c) => Ok(c),
                Err(e) => Err(e@),
            },
        ) {
            Some(m) => r is Err && r->Err_0@ == m,
            None => r is Ok && Some((r->Ok_0).0) == lan::preferred((found->Ok_0)->0.addresses@) && (
            r->Ok_0).1 == (found->Ok_0)->0.port,
        },
{
    match found {
        Err(e) => Err(both("mdns: ", e.as_str())),
        Ok(None) => Err("no LAN candidate observed within timeout".to_string()),
        Ok(Some(c)) => match preferred_address(&c.addresses) {
            Some(ip) => Ok((ip, c.port)),
            None => Err("no usable IP address".to_string()),
        },
    }
}

/// The locale that the environment asks for, and since when: since ever, where it
/// does not say, or says it badly.
pub fn locale_override(locale: Option<String>, since: &Option<String>) -> (r: Option<(String, u64)>)
    ensures
        locale is None <==> r is None,
        r matches Some(l) ==> l.0 == locale->0 && l.1 == match *since {
            Some(s) => match text::parsed_unsigned(s@, u64::MAX as nat) {
                Some(n) => n,
                None => 0,
            },
            None => 0,
        },
{
    match locale {
        Some(l) => {
            let ts: u64 = match since {
                Some(s) => match parse_unsigned(s.as_str(), u64::MAX) {
                    Some(n) => n,
                    None => 0,
                },
                None => 0,
            };
            Some((l, ts))
        },
        None => None,
    }
}

// ---------------------------------------------------------------------------
// Reconnecting again and again
// ---------------------------------------------------------------------------

/// The number of tries after which none follows.
pub const SCHEDULE_LEN: usize = 5;

/// The wait before the try after `failures` failed ones, in milliseconds: none,
/// five seconds, fifteen, a minute, five minutes. In a hurry the same numbers
/// count milliseconds.
pub open spec fn scheduled(fast: bool, failures: usize) -> Option<u64> {
    let unit: int = if fast {
        1
    } else {
        1000
    };
    if failures == 0 {
        Some(0)
    } else if failures == 1 {
        Some((5 * unit) as u64)
    } else if failures == 2 {
        Some((15 * unit) as u64)
    } else if failures == 3 {
        Some((60 * unit) as u64)
    } else if failures == 4 {
        Some((300 * unit) as u64)
    } else {
        None
    }
}

/// Reconnecting until it succeeds, the schedule runs out, or enough was tried.
pub struct AutoReconnect {
    pub fast: bool,
    pub cap: Option<usize>,
    /// Failed tries in a row.
    pub failures: usize,
    /// Tries so far.
    pub attempts: usize,
}

/// What happened to the reconnecting.
#[derive(Debug)]
pub enum AutoEvent<S = String, B = Vec<u8>> {
    Begin,
    ConnectFailed(S),
    ReconnectFailed(S),
    /// It succeeded, with this transcript.
    Succeeded(B),
}

impl View for AutoEvent {
    type V = AutoEvent<Seq<char>, Seq<u8>>;

    open spec fn view(&self) -> AutoEvent<Seq<char>, Seq<u8>> {
        match self {
            AutoEvent::Begin => AutoEvent::Begin,
            AutoEvent::ConnectFailed(e) => AutoEvent::ConnectFailed(e@),
            AutoEvent::ReconnectFailed(e) => AutoEvent::ReconnectFailed(e@),
            AutoEvent::Succeeded(b) => AutoEvent::Succeeded(b@),
        }
    }
}

/// What follows: a line about what happened, and another try or the end.
#[derive(Debug, PartialEq, Eq)]
pub struct AutoStep<S = String> {
    /// About the try that is over, when one is.
    pub said: Option<S>,
    /// The wait before the next try, in milliseconds; without one, it is over.
    pub after_ms: Option<u64>,
    /// Why it is over, when no try succeeded.
    pub farewell: Option<S>,
}

impl View for AutoStep {
    type V = AutoStep<Seq<char>>;

    open spec fn view(&self) -> AutoStep<Seq<char>> {
        AutoStep {
            said: text::maybe(self.said),
            after_ms: self.after_ms,
            farewell: text::maybe(self.farewell),
        }
    }
}

/// What follows once so much was tried: the next try, or the end.
pub open spec fn auto_next(st: AutoReconnect, said: Option<Seq<char>>) -> (
    AutoReconnect,
    AutoStep<Seq<char>>,
) {
    if st.cap matches Some(cap) && st.attempts >= cap {
        (
            st,
            AutoStep {
                said,
                after_ms: None,
                farewell: Some("--max-attempts reached; exiting"@),
            },
        )
    } else {
        match scheduled(st.fast, st.failures) {
            Some(ms) => (
                AutoReconnect { attempts: one_more(st.attempts), ..st },
                AutoStep { said, after_ms: Some(ms), farewell: None },
            ),
            None => (
                st,
                AutoStep {
                    said,
                    after_ms: None,
                    farewell: Some(
                        "backoff schedule reached passive; abandoning auto-reconnect after "@
                            + text::decimal(st.attempts as nat) + " attempts"@,
                    ),
                },
            ),
        }
    }
}

/// One more, as far as there is one.
pub open spec fn one_more(n: usize) -> usize {
    if n == usize::MAX {
        n
    } else {
        (n + 1) as usize
    }
}

/// The number of the try that is over.
pub open spec fn attempt_text(st: AutoReconnect) -> Seq<char> {
    "attempt "@ + text::decimal((st.failures + 1) as nat)
}

/// What follows an event.
pub open spec fn auto_step(st: AutoReconnect, ev: AutoEvent<Seq<char>, Seq<u8>>) -> (
    AutoReconnect,
    AutoStep<Seq<char>>,
) {
    let failed = AutoReconnect { failures: one_more(st.failures), ..st };
    match ev {
        AutoEvent::Begin => auto_next(st, None),
        AutoEvent::ConnectFailed(e) => auto_next(
            failed,
            Some(attempt_text(st) + " connect failed: "@ + e),
        ),
        AutoEvent::ReconnectFailed(e) => auto_next(
            failed,
            Some(attempt_text(st) + " reconnect failed: "@ + e),
        ),
        AutoEvent::Succeeded(hash) => (
            AutoReconnect { failures: 0, ..st },
            AutoStep {
                said: Some(
                    "\u{2705} "@ + attempt_text(st) + " succeeded \u{2014} transcript_hash="@
                        + codec::hex_text(hash),
                ),
                after_ms: None,
                farewell: None,
            },
        ),
    }
}

/// The wait before the try after `failures` failed ones.
fn scheduled_wait(fast: bool, failures: usize) -> (r: Option<u64>)
    ensures
        r == scheduled(fast, failures),
{
    let unit: u64 = if fast {
        1
    } else {
        1000
    };
    if failures == 0 {
        Some(0)
    } else if failures == 1 {
        Some(5 * unit)
    } else if failures == 2 {
        Some(15 * unit)
    } else if failures == 3 {
        Some(60 * unit)
    } else if failures == 4 {
        Some(300 * unit)
    } else {
        None
    }
}

impl AutoReconnect {
    /// Nothing was tried yet.
    pub fn new(fast: bool, cap: Option<usize>) -> (r: Self)
        ensures
            r == (AutoReconnect { fast, cap, failures: 0, attempts: 0 }),
    {
        AutoReconnect { fast, cap, failures: 0, attempts: 0 }
    }

    /// The number of the try that is over.
    fn attempt(&self) -> (r: String)
        requires
            self.failures < usize::MAX,
        ensures
            r@ == attempt_text(*self),
    {
        both("attempt ", decimal_text((self.failures + 1) as u64).as_str())
    }

    /// The next try, or the end.
    fn go_on(&mut self, said: Option<String>) -> (r: AutoStep)
        ensures
            (*final(self), r@) == auto_next(*old(self), text::maybe(said)),
    {
        let enough = match self.cap {
            Some(cap) => self.attempts >= cap,
            None => false,
        };
        if enough {
            return AutoStep {
                said,
                after_ms: None,
                farewell: Some("--max-attempts reached; exiting".to_string()),
            };
        }
        match scheduled_wait(self.fast, self.failures) {
            Some(ms) => {
                self.attempts = self.attempts.saturating_add(1);
                AutoStep { said, after_ms: Some(ms), farewell: None }
            },
            None => {
                let mut m = both(
                    "backoff schedule reached passive; abandoning auto-reconnect after ",
                    decimal_text(self.attempts as u64).as_str(),
                );
                m.append(" attempts");
                AutoStep { said, after_ms: None, farewell: Some(m) }
            },
        }
    }

    /// Takes note of an event and says what follows.
    pub fn step(&mut self, ev: AutoEvent) -> (r: AutoStep)
        requires
            old(self).failures < usize::MAX,
            ev matches AutoEvent::Succeeded(b) ==> 2 * b@.len() <= usize::MAX,
        ensures
            (*final(self), r@) == auto_step(*old(self), ev@),
    {
        match ev {
            AutoEvent::Begin => self.go_on(None),
            AutoEvent::ConnectFailed(e) => {
                let mut m = self.attempt();
                m.append(" connect failed: ");
                m.append(e.as_str());
                self.failures = self.failures.saturating_add(1);
                self.go_on(Some(m))
            },
            AutoEvent::ReconnectFailed(e) => {
                let mut m = self.attempt();
                m.append(" reconnect failed: ");
                m.append(e.as_str());
                self.failures = self.failures.saturating_add(1);
                self.go_on(Some(m))
            },
            AutoEvent::Succeeded(hash) => {
                let mut m = both("\u{2705} ", self.attempt().as_str());
                m.append(" succeeded \u{2014} transcript_hash=");
                m.append(hex_encode(hash.as_slice()).as_str());
                self.failures = 0;
                AutoStep { said: Some(m), after_ms: None, farewell: None }
            },
        }
    }
}

/// A try failed, in one way or the other.
pub open spec fn is_failure(ev: AutoEvent<Seq<char>, Seq<u8>>) -> bool {
    ev is ConnectFailed || ev is ReconnectFailed
}

/// The state after a run of events, from the start.
pub open spec fn auto_after(
    fast: bool,
    cap: Option<usize>,
    events: Seq<AutoEvent<Seq<char>, Seq<u8>>>,
) -> (AutoReconnect, AutoStep<Seq<char>>)
    decreases events.len(),
{
    if events.len() == 0 {
        auto_step(AutoReconnect { fast, cap, failures: 0, attempts: 0 }, AutoEvent::Begin)
    } else {
        auto_step(auto_after(fast, cap, events.drop_last()).0, events.last())
    }
}

/// Each failure, of connecting or of what follows it, costs one step of the
/// schedule, and one of the tries that are allowed: after `n` failures there is
/// another try if and only if both the schedule and the limit leave one.
pub proof fn lemma_tries_are_bounded(
    fast: bool,
    cap: Option<usize>,
    events: Seq<AutoEvent<Seq<char>, Seq<u8>>>,
)
    requires
        events.len() <= SCHEDULE_LEN,
        forall|i: int| 0 <= i < events.len() ==> is_failure(#[trigger] events[i]),
    ensures
        auto_after(fast, cap, events).1.after_ms is Some <==> events.len() < SCHEDULE_LEN && (
        cap matches Some(c) ==> events.len() < c),
        auto_after(fast, cap, events).1.after_ms is Some ==> auto_after(fast, cap, events).1.after_ms
            == scheduled(fast, events.len() as usize),
        auto_after(fast, cap, events).0.failures == events.len(),
        auto_after(fast, cap, events).0.fast == fast,
        auto_after(fast, cap, events).0.cap == cap,
        auto_after(fast, cap, events).0.attempts == if auto_after(fast, cap, events).1.after_ms is Some {
            (events.len() + 1) as int
        } else {
            match cap {
                Some(c) => if c <= events.len() {
                    c as int
                } else {
                    events.len() as int
                },
                None => events.len() as int,
            }
        },
    decreases events.len(),
{
    if events.len() > 0 {
        let before = events.drop_last();
        assert forall|i: int| 0 <= i < before.len() implies is_failure(#[trigger] before[i]) by {
            assert(is_failure(events[i]));
        }
        assert(is_failure(events[events.len() - 1]));
        lemma_tries_are_bounded(fast, cap, before);
    }
}

/// A success ends the loop, whatever failed before it.
pub proof fn lemma_success_ends_it(
    fast: bool,
    cap: Option<usize>,
    events: Seq<AutoEvent<Seq<char>, Seq<u8>>>,
)
    requires
        events.len() > 0,
        events.last() is Succeeded,
    ensures
        auto_after(fast, cap, events).1.after_ms is None,
        auto_after(fast, cap, events).1.farewell is None,
        auto_after(fast, cap, events).0.failures == 0,
{
}

// ---------------------------------------------------------------------------
// Peers and scans
// ---------------------------------------------------------------------------

/// The line about one trusted peer.
pub open spec fn peer_line(i: nat, p: TrustedPeerView) -> Seq<char> {
    "  ["@ + text::decimal(i) + "] static_pub = "@ + codec::hex_text(p.peer_static_pub)
        + "  paired_at = "@ + text::decimal(p.paired_at as nat)
}

/// What is said of the trusted peers.
pub open spec fn peers_lines(list: Seq<TrustedPeerView>) -> Seq<Seq<char>> {
    if list.len() == 0 {
        seq!["(no trusted peers)"@]
    } else {
        seq!["trusted peers ("@ + text::decimal(list.len()) + "):"@] + Seq::new(
            list.len(),
            |i: int| peer_line(i as nat, list[i]),
        )
    }
}

/// What is said of the trusted peers.
pub fn peers_report(list: &Vec<TrustedPeer>) -> (r: Vec<String>)
    ensures
        text::texts(r@) == peers_lines(peers::peer_views(list@)),
{
    let ghost views = peers::peer_views(list@);
    let mut lines: Vec<String> = Vec::new();
    if list.len() == 0 {
        lines.push("(no trusted peers)".to_string());
        assert(text::texts(lines@) =~= peers_lines(views));
        return lines;
    }
    let mut m = both("trusted peers (", decimal_text(list.len() as u64).as_str());
    m.append("):");
    lines.push(m);
    let ghost head = "trusted peers ("@ + text::decimal(views.len()) + "):"@;
    let mut i: usize = 0;
    while i < list.len()
        invariant
            i <= list@.len(),
            views == peers::peer_views(list@),
            lines@.len() == i + 1,
            text::texts(lines@)[0] == head,
            forall|j: int|
                0 <= j < i ==> #[trigger] text::texts(lines@)[j + 1] == peer_line(
                    j as nat,
                    views[j],
                ),
        decreases list.len() - i,
    {
        let ghost before = text::texts(lines@);
        let mut m = both("  [", decimal_text(i as u64).as_str());
        m.append("] static_pub = ");
        m.append(hex_encode(&list[i].peer_static_pub).as_str());
        m.append("  paired_at = ");
        m.append(decimal_text(list[i].paired_at).as_str());
        let ghost mv = m@;
        lines.push(m);
        assert(text::texts(lines@) =~= before.push(mv));
        assert(views[i as int] == list@[i as int]@);
        i += 1;
    }
    assert forall|k: int| 0 <= k < lines@.len() implies #[trigger] text::texts(lines@)[k]
        == peers_lines(views)[k] by {
        if k > 0 {
            assert(text::texts(lines@)[(k - 1) + 1] == peer_line((k - 1) as nat, views[k - 1]));
        }
    }
    assert(text::texts(lines@) =~= peers_lines(views));
    lines
}

/// What is said of a peer that was forgotten.
pub fn forgotten_line(peer: &[u8; 32]) -> (r: String)
    ensures
        r@ == "forgot peer "@ + codec::hex_text(peer@),
{
    both("forgot peer ", hex_encode(peer).as_str())
}

/// A time as `humantime` writes it to the second: `2018-02-14T00:28:07Z`.
pub uninterp spec fn rfc3339(secs: u64) -> Seq<char>;

/// The first second that `humantime` does not write: the year ten thousand.
pub const YEAR_10000: u64 = 253_402_300_800;

/// The time `secs` seconds after the epoch, by `humantime::format_rfc3339_seconds`.
/// The text is a function of the number alone; which text it is is not stated.
#[verifier::external_body]
pub(crate) fn time_text(secs: u64) -> (r: String)
    requires
        secs < YEAR_10000,
    ensures
        r@ == rfc3339(secs),
{
    let at = std::time::UNIX_EPOCH + std::time::Duration::from_secs(secs);
    humantime::format_rfc3339_seconds(at).to_string()
}

/// The mode of an advertisement.
pub open spec fn mode_of(c: AdvCandidate) -> Seq<char> {
    if c.payload.pairable {
        "pairable"@
    } else if c.payload.trusted_presence {
        "trusted-presence"@
    } else {
        "unknown"@
    }
}

/// What a scan says of an advertisement, behind the time.
pub open spec fn candidate_text(c: AdvCandidate) -> Seq<char> {
    " vortex "@ + platform::addr_text((c.addr.0)@) + "  rssi="@ + (match c.rssi {
        Some(n) => gatt::signed_decimal(n as int) + " dBm"@,
        None => "?"@,
    }) + "  mode="@ + text::padded(mode_of(c)) + "  payload8="@ + codec::hex_text(c.payload.payload_8@)
        + "  name="@ + (match c.local_name {
        Some(n) => n@,
        None => "(no name)"@,
    })
}

/// What a scan says of an advertisement, behind the time.
pub fn candidate_line(c: &AdvCandidate) -> (r: String)
    ensures
        r@ == candidate_text(*c),
{
    let rssi = match c.rssi {
        Some(n) => both(signed_text(n as i64).as_str(), " dBm"),
        None => "?".to_string(),
    };
    let mode = if c.payload.pairable {
        "pairable"
    } else if c.payload.trusted_presence {
        "trusted-presence"
    } else {
        "unknown"
    };
    let name = match &c.local_name {
        Some(n) => n.as_str().to_string(),
        None => "(no name)".to_string(),
    };
    let mut m = both(" vortex ", c.addr.to_text().as_str());
    m.append("  rssi=");
    m.append(rssi.as_str());
    m.append("  mode=");
    m.append(pad(mode).as_str());
    m.append("  payload8=");
    m.append(hex_encode(&c.payload.payload_8).as_str());
    m.append("  name=");
    m.append(name.as_str());
    m
}

/// What a scan says of an advertisement that was seen `secs` seconds after the
/// epoch.
pub fn on_candidate(c: &AdvCandidate, secs: u64) -> (r: String)
    requires
        secs < YEAR_10000,
    ensures
        r@ == "["@ + rfc3339(secs) + "]"@ + candidate_text(*c),
{
    let mut m = both("[", time_text(secs).as_str());
    m.append("]");
    m.append(candidate_line(c).as_str());
    m
}

// ---------------------------------------------------------------------------
// What holds of the commands
// ---------------------------------------------------------------------------

/// A command that talks to one phone takes its address as the next word, and what it does with
/// the words behind that: an echo sends the bytes that they write, a reconnect means the peer
/// that they name, and options may stand anywhere.
pub proof fn lemma_commands_with_an_address(
    prog: Seq<char>,
    addr: Seq<char>,
    third: Seq<char>,
    rest: Seq<Seq<char>>,
)
    ensures
        asked_for(seq![prog, "connect"@, addr] + rest, None) == Ok::<SpecCommand, Seq<char>>(
            Command::Connect { addr },
        ),
        asked_for(seq![prog, "handshake"@, addr] + rest, None) == Ok::<SpecCommand, Seq<char>>(
            Command::Handshake { addr },
        ),
        codec::is_hex_text(third) ==> asked_for(
            seq![prog, "echo"@, addr, third] + rest,
            None,
        ) == Ok::<SpecCommand, Seq<char>>(
            Command::Echo { addr, payload: codec::hex_bytes(third) },
        ),
        asked_for(seq![prog, "echo"@, addr], None) == Ok::<SpecCommand, Seq<char>>(
            Command::Echo { addr, payload: seq![0x76u8, 0x6f, 0x72, 0x74, 0x65, 0x78] },
        ),
        asked_for(seq![prog, "reconnect"@, addr, third] + rest, None) == Ok::<
            SpecCommand,
            Seq<char>,
        >(Command::Reconnect { addr, peer: Some(third) }),
        asked_for(seq![prog, "reconnect"@, addr], None) == Ok::<SpecCommand, Seq<char>>(
            Command::Reconnect { addr, peer: None },
        ),
        asked_for(seq![prog, "pair"@, addr] + rest, None) == Ok::<SpecCommand, Seq<char>>(
            Command::Pair {
                addr,
                auto_approve: (seq![prog, "pair"@, addr] + rest).contains("--auto-approve"@),
            },
        ),
{
    reveal_strlit("connect");
    reveal_strlit("echo");
    reveal_strlit("handshake");
    reveal_strlit("pair");
    reveal_strlit("reconnect");
    reveal_strlit("auto-reconnect");
    assert("connect"@.len() == 7 && "echo"@.len() == 4 && "handshake"@.len() == 9 && "pair"@.len()
        == 4 && "reconnect"@.len() == 9 && "auto-reconnect"@.len() == 14);
    assert("echo"@[0] != "pair"@[0]);
    assert("handshake"@[0] != "reconnect"@[0]);
    let a1 = seq![prog, "connect"@, addr] + rest;
    assert(a1[1] == "connect"@ && a1[2] == addr);
    let a2 = seq![prog, "handshake"@, addr] + rest;
    assert(a2[1] == "handshake"@ && a2[2] == addr);
    let a3 = seq![prog, "echo"@, addr, third] + rest;
    assert(a3[1] == "echo"@ && a3[2] == addr && a3[3] == third);
    let a4 = seq![prog, "reconnect"@, addr, third] + rest;
    assert(a4[1] == "reconnect"@ && a4[2] == addr && a4[3] == third);
    let a5 = seq![prog, "pair"@, addr] + rest;
    assert(a5[1] == "pair"@ && a5[2] == addr);
    assert(default_payload() =~= seq![0x76u8, 0x6f, 0x72, 0x74, 0x65, 0x78]);
}

/// Reconnecting again and again is in a hurry when the option says so, and tries as often as the
/// number behind the option for that says, where there is a number.
pub proof fn lemma_options_of_auto_reconnect(
    prog: Seq<char>,
    addr: Seq<char>,
    number: Seq<char>,
    n: usize,
)
    requires
        addr != "--max-attempts"@ && addr != "--fast"@,
        prog != "--max-attempts"@ && prog != "--fast"@,
        text::parsed_unsigned(number, usize::MAX as nat) == Some(n as nat),
    ensures
        asked_for(seq![prog, "auto-reconnect"@, addr], None) == Ok::<SpecCommand, Seq<char>>(
            Command::AutoReconnect { addr, fast: false, max_attempts: None },
        ),
        asked_for(seq![prog, "auto-reconnect"@, addr, "--fast"@], None) == Ok::<
            SpecCommand,
            Seq<char>,
        >(Command::AutoReconnect { addr, fast: true, max_attempts: None }),
        asked_for(
            seq![prog, "auto-reconnect"@, addr, "--fast"@, "--max-attempts"@, number],
            None,
        ) == Ok::<SpecCommand, Seq<char>>(
            Command::AutoReconnect { addr, fast: true, max_attempts: Some(n) },
        ),
{
    reveal_strlit("connect");
    reveal_strlit("echo");
    reveal_strlit("handshake");
    reveal_strlit("pair");
    reveal_strlit("reconnect");
    reveal_strlit("auto-reconnect");
    reveal_strlit("--fast");
    reveal_strlit("--max-attempts");
    assert("connect"@.len() == 7 && "echo"@.len() == 4 && "handshake"@.len() == 9 && "pair"@.len()
        == 4 && "reconnect"@.len() == 9 && "auto-reconnect"@.len() == 14 && "--fast"@.len() == 6
        && "--max-attempts"@.len() == 14);
    assert("auto-reconnect"@[0] != "--max-attempts"@[0]);
    let a1 = seq![prog, "auto-reconnect"@, addr];
    let a2 = seq![prog, "auto-reconnect"@, addr, "--fast"@];
    let a3 = seq![prog, "auto-reconnect"@, addr, "--fast"@, "--max-attempts"@, number];
    assert(a2[3] == "--fast"@ && a3[3] == "--fast"@);
    lemma_place_is(a1, "--max-attempts"@, 3);
    lemma_place_is(a2, "--max-attempts"@, 4);
    lemma_place_is(a3, "--max-attempts"@, 4);
    assert(!a1.contains("--fast"@));
}

proof fn lemma_place_is(args: Seq<Seq<char>>, w: Seq<char>, i: int)
    requires
        0 <= i <= args.len(),
        forall|j: int| 0 <= j < i ==> #[trigger] args[j] != w,
        i < args.len() ==> args[i] == w,
    ensures
        place_of(args, w) == i,
    decreases args.len(),
{
    if i > 0 {
        assert(args[0] != w);
        let rest = args.drop_first();
        assert forall|j: int| 0 <= j < i - 1 implies #[trigger] rest[j] != w by {
            assert(rest[j] == args[j + 1]);
        }
        lemma_place_is(rest, w, i - 1);
    }
}

/// A command that needs an address is refused without one, and with one that is none, whatever
/// else the line says.
pub proof fn lemma_address_is_required(args: Seq<Seq<char>>, e: Seq<char>)
    requires
        args.len() >= 2,
        args[1] == "connect"@ || args[1] == "echo"@ || args[1] == "handshake"@ || args[1] == "pair"@
            || args[1] == "reconnect"@ || args[1] == "auto-reconnect"@,
    ensures
        args.len() == 2 ==> asked_for(args, None) is Err,
        args.len() > 2 ==> asked_for(args, Some(e)) == Err::<SpecCommand, Seq<char>>(
            "bad address: "@ + e,
        ),
        args.len() > 2 && args[1] != "echo"@ ==> asked_for(args, None) is Ok,
{
}

/// The commands without an address, and what a line without a command means.
pub proof fn lemma_commands_without_an_address(prog: Seq<char>, name: Seq<char>, rest: Seq<Seq<char>>)
    ensures
        asked_for(seq![prog, "scan"@] + rest, None) == Ok::<SpecCommand, Seq<char>>(Command::Scan),
        asked_for(seq![prog, "identity"@] + rest, None) == Ok::<SpecCommand, Seq<char>>(
            Command::Identity,
        ),
        asked_for(seq![prog, "lan-reconnect"@] + rest, None) == Ok::<SpecCommand, Seq<char>>(
            Command::LanReconnect,
        ),
        asked_for(seq![prog, "peers"@] + rest, None) == Ok::<SpecCommand, Seq<char>>(
            Command::Peers,
        ),
        asked_for(seq![prog], None) == Ok::<SpecCommand, Seq<char>>(Command::Help),
        asked_for(seq![prog, "--help"@] + rest, None) == Ok::<SpecCommand, Seq<char>>(
            Command::Help,
        ),
        asked_for(seq![prog, "-h"@] + rest, None) == Ok::<SpecCommand, Seq<char>>(Command::Help),
{
    reveal_strlit("connect");
    reveal_strlit("echo");
    reveal_strlit("handshake");
    reveal_strlit("pair");
    reveal_strlit("reconnect");
    reveal_strlit("auto-reconnect");
    reveal_strlit("scan");
    reveal_strlit("identity");
    reveal_strlit("lan-reconnect");
    reveal_strlit("peers");
    reveal_strlit("forget");
    reveal_strlit("help");
    reveal_strlit("-h");
    reveal_strlit("--help");
    assert("connect"@.len() == 7 && "echo"@.len() == 4 && "handshake"@.len() == 9 && "pair"@.len()
        == 4 && "reconnect"@.len() == 9 && "auto-reconnect"@.len() == 14 && "scan"@.len() == 4
        && "identity"@.len() == 8 && "lan-reconnect"@.len() == 13 && "peers"@.len() == 5
        && "forget"@.len() == 6 && "help"@.len() == 4 && "-h"@.len() == 2 && "--help"@.len() == 6);
    assert("scan"@[0] == 's' && "echo"@[0] == 'e' && "pair"@[0] == 'p' && "help"@[0] == 'h'
        && "forget"@[0] == 'f' && "--help"@[0] == '-');
    assert((seq![prog, "scan"@] + rest)[1] == "scan"@);
    assert((seq![prog, "identity"@] + rest)[1] == "identity"@);
    assert((seq![prog, "lan-reconnect"@] + rest)[1] == "lan-reconnect"@);
    assert((seq![prog, "peers"@] + rest)[1] == "peers"@);
    assert((seq![prog, "--help"@] + rest)[1] == "--help"@);
    assert((seq![prog, "-h"@] + rest)[1] == "-h"@);
}

/// Forgetting takes the key of a peer, in 64 hexadecimal digits, and nothing shorter or longer; a
/// word that is no command is told back.
pub proof fn lemma_forget_takes_a_key(args: Seq<Seq<char>>)
    requires
        args.len() >= 2,
    ensures
        args[1] == "forget"@ && args.len() > 2 && codec::is_hex_text(args[2]) && args[2].len() == 64
            ==> asked_for(args, None) == Ok::<SpecCommand, Seq<char>>(
            Command::Forget { key: codec::hex_bytes(args[2]) },
        ),
        args[1] == "forget"@ && (args.len() == 2 || !codec::is_hex_text(args[2]) || args[2].len()
            != 64) ==> asked_for(args, None) is Err,
        asked_for(args, None) matches Ok(Command::Unknown { name }) ==> name == args[1],
{
    reveal_strlit("connect");
    reveal_strlit("echo");
    reveal_strlit("handshake");
    reveal_strlit("pair");
    reveal_strlit("reconnect");
    reveal_strlit("auto-reconnect");
    reveal_strlit("scan");
    reveal_strlit("identity");
    reveal_strlit("lan-reconnect");
    reveal_strlit("peers");
    reveal_strlit("forget");
    assert("connect"@.len() == 7 && "echo"@.len() == 4 && "handshake"@.len() == 9 && "pair"@.len()
        == 4 && "reconnect"@.len() == 9 && "auto-reconnect"@.len() == 14 && "scan"@.len() == 4
        && "identity"@.len() == 8 && "lan-reconnect"@.len() == 13 && "peers"@.len() == 5
        && "forget"@.len() == 6);
}

/// The identity is kept in the keyring wherever there is one, and in memory only when there is
/// none and that was asked for.
pub proof fn lemma_memory_is_asked_for(
    keyring: StorageResult<()>,
    insecure: bool,
    r: Result<StoreChoice, String>,
)
    requires
        call_ensures(open_identity_store, (keyring, insecure), r),
    ensures
        keyring is Ok ==> r is Ok && r->Ok_0 is Keyring,
        r is Ok && r->Ok_0 is Memory <==> keyring is Err && insecure,
        r is Err <==> keyring is Err && !insecure,
{
}

/// A pairing is refused by the word `reject` alone, whatever its capitals and the white space
/// around it, and never where it is approved in advance.
pub proof fn lemma_rejecting_a_pairing(
    auto: bool,
    line: &str,
    r: bool,
    pre: Seq<char>,
    word: Seq<char>,
    post: Seq<char>,
)
    requires
        call_ensures(approves, (auto, line), r),
        line@ == pre + word + post,
        forall|i: int| 0 <= i < pre.len() ==> text::is_white(#[trigger] pre[i]),
        forall|i: int| 0 <= i < post.len() ==> text::is_white(#[trigger] post[i]),
        word.len() > 0,
        !text::is_white(word[0]) && !text::is_white(word.last()),
    ensures
        r <==> auto || text::ascii_lowered(word) != "reject"@,
{
    text::lemma_trimmed_core(pre, word, post);
}

/// The shared secret is told only where debugging with secrets is asked for, and never among the
/// lines that everybody sees.
pub proof fn lemma_secret_is_not_told(
    peer: &[u8; 32],
    transcript: &Vec<u8>,
    prs: &[u8; 32],
    paired_at: u64,
    reveal: bool,
    r: PairReport,
)
    requires
        2 * transcript@.len() <= usize::MAX,
        call_ensures(pair_report, (peer, transcript, prs, paired_at, reveal), r),
    ensures
        r.secret_line is Some <==> reveal,
        r.secret_line is Some ==> r.secret_line->0@ == "  prs             : "@ + codec::hex_text(
            prs@,
        ) + " [insecure debug]"@,
        text::texts(r.lines@).len() == if reveal {
            4
        } else {
            5nat
        },
        text::texts(r.lines@)[1] == "  peer_static_pub : "@ + codec::hex_text(peer@),
        text::texts(r.lines@)[2] == "  transcript_hash : "@ + codec::hex_text(transcript@),
        text::texts(r.lines@).last() == "  trust persisted via Secret Service (paired_at = "@
            + text::decimal(paired_at as nat) + ")"@,
{
}

/// An echo is good when the answer is of the type and kind of an echo and brings back what was
/// sent, byte for byte.
pub proof fn lemma_echo_brings_it_back(
    sent: &Vec<u8>,
    ty: u8,
    sub: u8,
    got: &Vec<u8>,
    r: (Vec<String>, Result<(), String>),
)
    requires
        2 * sent@.len() <= usize::MAX,
        2 * got@.len() <= usize::MAX,
        call_ensures(echo_report, (sent, ty, sub, got), r),
    ensures
        r.1 is Ok <==> got@ == sent@ && ty == 48 && sub == 2,
        text::texts(r.0@)[0] == "echo request   : type=0x30 sub=0x01 payload="@ + codec::hex_text(
            sent@,
        ),
        text::texts(r.0@).len() == if r.1 is Ok {
            3
        } else {
            2nat
        },
{
}

/// Which peer is reconnected to: the one whose key is given, and without a key the first one that
/// is trusted.
pub proof fn lemma_which_peer_is_meant(
    hex: &Option<String>,
    r: Result<PeerChoice, String>,
    list: StorageResult<Vec<TrustedPeer>>,
    hint: &str,
    first: Result<TrustedPeer, String>,
)
    requires
        call_ensures(choose_peer, (hex,), r),
        call_ensures(first_peer, (list, hint), first),
    ensures
        hex is None ==> r is Ok && r->Ok_0@ is First,
        hex is Some ==> (r is Ok <==> codec::is_hex_text(hex->0@) && hex->0@.len() == 64),
        hex is Some && r is Ok ==> r->Ok_0@ == PeerChoice::Key(codec::hex_bytes(hex->0@)),
        first is Ok <==> list is Ok && list->Ok_0@.len() > 0,
        first is Ok ==> first->Ok_0 == list->Ok_0@[0],
{
}

/// A counter of the peer that lies below the own one is warned about, and no other is.
pub proof fn lemma_rollback_is_warned_about(via: Via, peer: u64, local: u64, r: Option<String>)
    requires
        call_ensures(rollback_warning, (via, peer, local), r),
    ensures
        r is Some <==> peer < local,
        r is Some && via is Radio ==> r->0@ == "possible trust rollback: peer counter="@
            + text::decimal(peer as nat) + " local="@ + text::decimal(local as nat),
        r is Some && via is Lan ==> r->0@ == "possible trust rollback (LAN): peer counter="@
            + text::decimal(peer as nat) + " local="@ + text::decimal(local as nat),
        r is Some && via is Auto ==> r->0@ == "possible trust rollback (auto-reconnect): peer="@
            + text::decimal(peer as nat) + " local="@ + text::decimal(local as nat),
{
}

/// The first try comes at once, the next ones 5, 15, 60 and 300 seconds after the failure before
/// them, and after the fifth failure there is none; in a hurry the same numbers count milliseconds.
pub proof fn lemma_schedule_of_tries(
    fast: bool,
    events: Seq<AutoEvent<Seq<char>, Seq<u8>>>,
)
    requires
        events.len() <= 5,
        forall|i: int|
            0 <= i < events.len() ==> (#[trigger] events[i]) is ConnectFailed
                || events[i] is ReconnectFailed,
    ensures
        ({
            let step = auto_after(fast, None, events).1;
            let unit: int = if fast {
                1
            } else {
                1000
            };
            &&& events.len() == 0 ==> step.after_ms == Some(0u64)
            &&& events.len() == 1 ==> step.after_ms is Some && step.after_ms->0 == 5 * unit
            &&& events.len() == 2 ==> step.after_ms is Some && step.after_ms->0 == 15 * unit
            &&& events.len() == 3 ==> step.after_ms is Some && step.after_ms->0 == 60 * unit
            &&& events.len() == 4 ==> step.after_ms is Some && step.after_ms->0 == 300 * unit
            &&& events.len() == 5 ==> step.after_ms is None && step.farewell is Some
        }),
{
    assert forall|i: int| 0 <= i < events.len() implies is_failure(#[trigger] events[i]) by {}
    lemma_tries_are_bounded(fast, None, events);
    if events.len() == 5 {
        assert(is_failure(events[4]));
        let before = events.drop_last();
        assert forall|i: int| 0 <= i < before.len() implies is_failure(#[trigger] before[i]) by {
            assert(is_failure(events[i]));
        }
        lemma_tries_are_bounded(fast, None, before);
    }
}

/// With a limit there are exactly as many tries as it allows, and the end says that it was reached.
pub proof fn lemma_limit_of_tries(
    fast: bool,
    cap: usize,
    events: Seq<AutoEvent<Seq<char>, Seq<u8>>>,
)
    requires
        events.len() <= cap <= 5,
        forall|i: int|
            0 <= i < events.len() ==> (#[trigger] events[i]) is ConnectFailed
                || events[i] is ReconnectFailed,
    ensures
        ({
            let step = auto_after(fast, Some(cap), events).1;
            &&& events.len() < cap ==> step.after_ms is Some && step.farewell is None
            &&& events.len() == cap ==> step.after_ms is None && step.farewell == Some(
                "--max-attempts reached; exiting"@,
            )
        }),
{
    assert forall|i: int| 0 <= i < events.len() implies is_failure(#[trigger] events[i]) by {}
    lemma_tries_are_bounded(fast, Some(cap), events);
    if events.len() > 0 {
        let before = events.drop_last();
        assert(is_failure(events[events.len() - 1]));
        assert forall|i: int| 0 <= i < before.len() implies is_failure(#[trigger] before[i]) by {
            assert(is_failure(events[i]));
        }
        lemma_tries_are_bounded(fast, Some(cap), before);
    }
}

/// What is said of a try tells its number, what failed, and why; of the one that succeeds it tells
/// the transcript.
pub proof fn lemma_tries_are_reported(st: AutoReconnect, e: Seq<char>, hash: Seq<u8>)
    ensures
        ({
            let number = "attempt "@ + text::decimal((st.failures + 1) as nat);
            &&& auto_step(st, AutoEvent::ConnectFailed(e)).1.said == Some(
                number + " connect failed: "@ + e,
            )
            &&& auto_step(st, AutoEvent::ReconnectFailed(e)).1.said == Some(
                number + " reconnect failed: "@ + e,
            )
            &&& auto_step(st, AutoEvent::Succeeded(hash)).1.said == Some(
                "\u{2705} "@ + number + " succeeded \u{2014} transcript_hash="@ + codec::hex_text(
                    hash,
                ),
            )
            &&& auto_step(st, AutoEvent::Begin).1.said is None
        }),
{
}

/// A peer on the network is reached at one of its addresses and at its port, where it has any.
pub proof fn lemma_route_over_the_network(
    found: &Result<Option<LanCandidate>, String>,
    r: Result<(HostAddr, u16), String>,
    locale: Option<String>,
    since: &Option<String>,
    l: Option<(String, u64)>,
)
    requires
        call_ensures(lan_route, (found,), r),
        call_ensures(locale_override, (locale, since), l),
    ensures
        r is Ok <==> found is Ok && found->Ok_0 is Some && (found->Ok_0)->0.addresses@.len() > 0,
        r is Ok ==> (r->Ok_0).1 == (found->Ok_0)->0.port,
        r is Ok ==> lan::preferred((found->Ok_0)->0.addresses@) == Some((r->Ok_0).0),
        l is Some <==> locale is Some,
        l is Some ==> (l->0).0 == locale->0,
        l is Some && since is None ==> (l->0).1 == 0,
        l is Some && since is Some && text::parsed_unsigned(since->0@, u64::MAX as nat) is Some ==> (
        l->0).1 == text::parsed_unsigned(since->0@, u64::MAX as nat)->0,
{
}

/// Every trusted peer has a line of its own, with its place, its key and when it was paired.
pub proof fn lemma_every_peer_has_a_line(list: Seq<TrustedPeerView>, i: int)
    requires
        0 <= i < list.len(),
    ensures
        peers_lines(list).len() == list.len() + 1,
        peers_lines(list)[i + 1] == "  ["@ + text::decimal(i as nat) + "] static_pub = "@
            + codec::hex_text(list[i].peer_static_pub) + "  paired_at = "@ + text::decimal(
            list[i].paired_at as nat,
        ),
        peers_lines(Seq::<TrustedPeerView>::empty()) == seq!["(no trusted peers)"@],
{
}

/// A command without the address that it needs is answered with how it is used.
pub proof fn lemma_how_commands_are_used(prog: Seq<char>)
    ensures
        asked_for(seq![prog, "connect"@], None) == Err::<SpecCommand, Seq<char>>(
            "usage: vortex-l3d connect <BD_ADDR>"@,
        ),
        asked_for(seq![prog, "echo"@], None) == Err::<SpecCommand, Seq<char>>(
            "usage: vortex-l3d echo <BD_ADDR> [hex_payload]"@,
        ),
        asked_for(seq![prog, "handshake"@], None) == Err::<SpecCommand, Seq<char>>(
            "usage: vortex-l3d handshake <BD_ADDR>"@,
        ),
        asked_for(seq![prog, "pair"@], None) == Err::<SpecCommand, Seq<char>>(
            "usage: vortex-l3d pair <BD_ADDR> [--auto-approve]"@,
        ),
        asked_for(seq![prog, "reconnect"@], None) == Err::<SpecCommand, Seq<char>>(
            "usage: vortex-l3d reconnect <BD_ADDR> [<peer_pub_hex>]"@,
        ),
        asked_for(seq![prog, "auto-reconnect"@], None) == Err::<SpecCommand, Seq<char>>(
            "usage: vortex-l3d auto-reconnect <BD_ADDR> [--fast] [--max-attempts N]"@,
        ),
        asked_for(seq![prog, "forget"@], None) == Err::<SpecCommand, Seq<char>>(
            "usage: vortex-l3d forget <peer_static_pub_hex>"@,
        ),
        asked_for(seq![prog, "help"@], None) == Ok::<SpecCommand, Seq<char>>(Command::Help),
{
    reveal_strlit("connect");
    reveal_strlit("echo");
    reveal_strlit("handshake");
    reveal_strlit("pair");
    reveal_strlit("reconnect");
    reveal_strlit("auto-reconnect");
    reveal_strlit("scan");
    reveal_strlit("identity");
    reveal_strlit("lan-reconnect");
    reveal_strlit("peers");
    reveal_strlit("forget");
    reveal_strlit("help");
    assert("connect"@.len() == 7 && "echo"@.len() == 4 && "handshake"@.len() == 9 && "pair"@.len()
        == 4 && "reconnect"@.len() == 9 && "auto-reconnect"@.len() == 14 && "scan"@.len() == 4
        && "identity"@.len() == 8 && "lan-reconnect"@.len() == 13 && "peers"@.len() == 5
        && "forget"@.len() == 6 && "help"@.len() == 4);
    assert("scan"@[0] == 's' && "echo"@[0] == 'e' && "pair"@[0] == 'p' && "help"@[0] == 'h');
    assert("handshake"@[0] != "reconnect"@[0]);
}

/// What cannot be read is told back with what is wrong with it.
pub proof fn lemma_what_is_wrong_with_the_words(
    prog: Seq<char>,
    addr: Seq<char>,
    word: Seq<char>,
    hex: &Option<String>,
    r: Result<PeerChoice, String>,
)
    requires
        call_ensures(choose_peer, (hex,), r),
    ensures
        !codec::is_hex_text(word) ==> asked_for(seq![prog, "echo"@, addr, word], None) == Err::<
            SpecCommand,
            Seq<char>,
        >("bad hex payload: "@ + codec::hex_complaint(word)),
        !codec::is_hex_text(word) ==> asked_for(seq![prog, "forget"@, word], None) == Err::<
            SpecCommand,
            Seq<char>,
        >("bad hex: "@ + codec::hex_complaint(word)),
        codec::is_hex_text(word) && word.len() != 64 ==> asked_for(seq![prog, "forget"@, word], None)
            == Err::<SpecCommand, Seq<char>>("peer_static_pub must be 32 bytes (64 hex chars)"@),
        hex is Some && !codec::is_hex_text(hex->0@) ==> r->Err_0@ == "bad hex: "@ + codec::hex_complaint(
            hex->0@,
        ),
        hex is Some && codec::is_hex_text(hex->0@) && hex->0@.len() != 64 ==> r->Err_0@
            == "peer_static_pub must be 32 bytes"@,
{
    reveal_strlit("connect");
    reveal_strlit("echo");
    reveal_strlit("handshake");
    reveal_strlit("pair");
    reveal_strlit("reconnect");
    reveal_strlit("auto-reconnect");
    reveal_strlit("scan");
    reveal_strlit("identity");
    reveal_strlit("lan-reconnect");
    reveal_strlit("peers");
    reveal_strlit("forget");
    assert("connect"@.len() == 7 && "echo"@.len() == 4 && "handshake"@.len() == 9 && "pair"@.len()
        == 4 && "reconnect"@.len() == 9 && "auto-reconnect"@.len() == 14 && "scan"@.len() == 4
        && "identity"@.len() == 8 && "lan-reconnect"@.len() == 13 && "peers"@.len() == 5
        && "forget"@.len() == 6);
}

/// What is said of the store: where the identity lies, and what to do where there is no keyring.
pub proof fn lemma_what_is_said_of_the_store(
    keyring: StorageResult<()>,
    r: Result<StoreChoice, String>,
    choice: StoreChoice,
    label: String,
    list: StorageResult<Vec<TrustedPeer>>,
    hint: &str,
    first: Result<TrustedPeer, String>,
    peer: &[u8; 32],
    gone: String,
)
    requires
        call_ensures(open_identity_store, (keyring, false), r),
        call_ensures(store_label, (choice,), label),
        call_ensures(first_peer, (list, hint), first),
        call_ensures(forgotten_line, (peer,), gone),
    ensures
        keyring is Err ==> r->Err_0@ == "secret service unavailable: "@ + storage::error_text(
            (keyring->Err_0)@,
        ) + "\n       set VORTEX_INSECURE=1 to fall back to in-memory storage (dev only)."@,
        choice is Keyring ==> label@ == "secret-service"@,
        choice is Memory ==> label@ == "in-memory (INSECURE)"@,
        list is Ok && list->Ok_0@.len() == 0 ==> first->Err_0@ == "no trusted peers \u{2014} pair first"@
            + hint@,
        list is Err ==> first->Err_0@ == storage::error_text((list->Err_0)@),
        gone@ == "forgot peer "@ + codec::hex_text(peer@),
{
}

/// What is said of a pairing, of a session and of a handshake, line by line.
pub proof fn lemma_what_is_said_of_a_session(
    peer: &[u8; 32],
    transcript: &Vec<u8>,
    prs: &[u8; 32],
    paired_at: u64,
    pairing: PairReport,
    alive: bool,
    session: Vec<String>,
    handshake: Vec<String>,
    remote: &Option<String>,
    headline: String,
)
    requires
        call_ensures(pair_report, (peer, transcript, prs, paired_at, false), pairing),
        call_ensures(session_report, (peer, transcript, alive), session),
        call_ensures(handshake_report, (peer, transcript), handshake),
        call_ensures(session_headline, (peer, remote), headline),
    ensures
        ({
            let key = "  peer_static_pub : "@ + codec::hex_text(peer@);
            let hash = "  transcript_hash : "@ + codec::hex_text(transcript@);
            &&& text::texts(pairing.lines@)[0] == "\u{2705} Paired"@
            &&& text::texts(pairing.lines@)[3]
                == "  prs             : [redacted; set VORTEX_INSECURE_DEBUG=1 to reveal]"@
            &&& alive ==> text::texts(session@) == seq![key, hash, "  liveness        : "@ + "ping/pong ok"@]
            &&& !alive ==> text::texts(session@) == seq![key, hash, "  liveness        : "@ + "FAIL"@]
            &&& text::texts(handshake@) == seq!["\u{2705} Noise XX completed"@, hash, key]
            &&& remote is None ==> headline@ == "\u{2705} Trusted reconnect ok"@
            &&& remote is Some ==> headline@ == "\u{2705} LAN reconnect ok \u{2014} peer "@
                + codec::hex_text(peer@.take(8)) + " via "@ + remote->0@
        }),
{
}

/// What is said of an echo, of the capabilities of a peer, and of a peer that cannot be reached.
pub proof fn lemma_what_is_said_of_an_answer(
    sent: &Vec<u8>,
    ty: u8,
    sub: u8,
    got: &Vec<u8>,
    r: (Vec<String>, Result<(), String>),
    version: u8,
    bits: u16,
    line: String,
    found: &Result<Option<LanCandidate>, String>,
    route: Result<(HostAddr, u16), String>,
)
    requires
        call_ensures(echo_report, (sent, ty, sub, got), r),
        call_ensures(capability_line, (version, bits), line),
        call_ensures(lan_route, (found,), route),
    ensures
        text::texts(r.0@)[1] == "echo response  : type=0x"@ + codec::hex_text(seq![ty]) + " sub=0x"@
            + codec::hex_text(seq![sub]) + " payload="@ + codec::hex_text(got@),
        r.1 is Ok ==> text::texts(r.0@)[2] == "\u{2705} round-trip ok \u{2014} bytes identical"@,
        r.1 is Err ==> r.1->Err_0@ == "echo response did not match request"@,
        line@ == "capability: version=0x"@ + codec::hex_text(seq![version]) + " capability_bits=0x"@
            + codec::hex_text(seq![(bits / 256) as u8]) + codec::hex_text(seq![(bits % 256) as u8]),
        found is Err ==> route->Err_0@ == "mdns: "@ + found->Err_0@,
        found is Ok && found->Ok_0 is None ==> route->Err_0@
            == "no LAN candidate observed within timeout"@,
        found is Ok && found->Ok_0 is Some && (found->Ok_0)->0.addresses@.len() == 0 ==> route->Err_0@
            == "no usable IP address"@,
{
}

/// What is said when the tries are given up, and of the list of peers.
pub proof fn lemma_what_is_said_at_the_end(
    st: AutoReconnect,
    e: Seq<char>,
    list: Seq<TrustedPeerView>,
)
    ensures
        st.cap is None && st.failures == 4 ==> auto_step(st, AutoEvent::ConnectFailed(e)).1.farewell
            == Some(
            "backoff schedule reached passive; abandoning auto-reconnect after "@ + text::decimal(
                st.attempts as nat,
            ) + " attempts"@,
        ),
        list.len() > 0 ==> peers_lines(list)[0] == "trusted peers ("@ + text::decimal(list.len()) + "):"@,
{
}

/// What a scan says of a phone: when, where, how strong, in which mode, with which payload and
/// under which name.
pub proof fn lemma_what_is_said_of_a_phone(c: &AdvCandidate, secs: u64, r: String)
    requires
        secs < 253_402_300_800,
        call_ensures(on_candidate, (c, secs), r),
    ensures
        ({
            let mode = if c.payload.pairable {
                "pairable"@
            } else if c.payload.trusted_presence {
                "trusted-presence"@
            } else {
                "unknown"@
            };
            let head = "["@ + rfc3339(secs) + "]"@;
            let strength = match c.rssi {
                None => "?"@,
                Some(n) => if n < 0 {
                    seq!['-'] + text::decimal((-n) as nat) + " dBm"@
                } else {
                    text::decimal(n as nat) + " dBm"@
                },
            };
            let name = match c.local_name {
                None => "(no name)"@,
                Some(n) => n@,
            };
            r@ == head + (" vortex "@ + platform::addr_text((c.addr.0)@) + "  rssi="@ + strength
                + "  mode="@ + text::padded(mode) + "  payload8="@ + codec::hex_text(
                c.payload.payload_8@,
            ) + "  name="@ + name)
        }),
{
}

} // verus!
