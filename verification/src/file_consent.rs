//! Files from the phone: asking the user before they come, and telling them when
//! they have.
//!
//! Consent fails closed. A question that cannot be shown, or that nobody answers,
//! is a refusal, and only a setting that says so plainly does away with it.

use vstd::prelude::*;

use crate::clipboard_sync;
use crate::clipboard_sync::file_name;
use crate::platform::paths;
use crate::platform::paths::{join, join_with};
use crate::platform::Host;
use crate::text;
use crate::text::{chars_of, decimal_text, same_text, text_between, trim};

verus! {

/// How long a question waits for an answer, in seconds.
pub const ANSWER_SECS: u64 = 45;

/// The file that the setting is written to: below the user's home directory on
/// Linux, where it has always been, and in the configuration directory elsewhere.
pub open spec fn setting_file(
    host: Host,
    home: Option<Seq<char>>,
    config: Option<Seq<char>>,
) -> Option<Seq<char>> {
    match host {
        Host::Linux => match home {
            Some(h) => Some(paths::joined(h, ".local/share/vortex/file_auto_accept"@)),
            None => None,
        },
        Host::Windows => match config {
            Some(c) => Some(paths::joined_with(c, "file_auto_accept"@, '\\')),
            None => None,
        },
    }
}

/// The file that the setting is written to.
pub fn auto_accept_path(host: Host, home: Option<String>, config: Option<String>) -> (r: Option<
    String,
>)
    ensures
        text::maybe(r) == setting_file(host, text::maybe(home), text::maybe(config)),
{
    match host {
        Host::Linux => match home {
            Some(h) => Some(join(h.as_str(), ".local/share/vortex/file_auto_accept")),
            None => None,
        },
        Host::Windows => match config {
            Some(c) => Some(join_with(c.as_str(), "file_auto_accept", '\\')),
            None => None,
        },
    }
}

/// What was written down says that files are taken without asking: only the digit
/// one does.
pub open spec fn says_yes(written: Option<Seq<char>>) -> bool {
    match written {
        Some(s) => text::trimmed(s) == "1"@,
        None => false,
    }
}

/// The setting as it is written down.
pub open spec fn setting_text(enabled: bool) -> Seq<char> {
    if enabled {
        "1"@
    } else {
        "0"@
    }
}

/// Whether files are taken without asking, by what was written down.
pub fn auto_accept(written: &Option<String>) -> (r: bool)
    ensures
        r == says_yes(text::maybe(*written)),
{
    match written {
        Some(s) => same_text(trim(s.as_str()).as_str(), "1"),
        None => false,
    }
}

/// The setting as it is written down.
pub fn auto_accept_text(enabled: bool) -> (r: String)
    ensures
        r@ == setting_text(enabled),
{
    if enabled {
        "1".to_string()
    } else {
        "0".to_string()
    }
}

/// Whether files are taken without asking. What was written down is read once;
/// after that the user's choice in this process counts.
pub struct AutoAccept {
    pub chosen: Option<bool>,
}

impl AutoAccept {
    /// Nothing was read yet.
    pub fn new() -> (r: Self)
        ensures
            r.chosen is None,
    {
        AutoAccept { chosen: None }
    }

    /// Whether files are taken without asking. `written` is what was written down,
    /// and matters only the first time.
    pub fn get_file_auto_accept(&mut self, written: &Option<String>) -> (r: bool)
        ensures
            r == match old(self).chosen {
                Some(c) => c,
                None => says_yes(text::maybe(*written)),
            },
            final(self).chosen == Some(r),
    {
        match self.chosen {
            Some(c) => c,
            None => {
                let on = auto_accept(written);
                self.chosen = Some(on);
                on
            },
        }
    }

    /// The user changed the setting. It holds at once; where it cannot be written
    /// down, that is said.
    pub fn set_file_auto_accept(&mut self, enabled: bool, path: Option<String>) -> (r: Result<
        (String, String),
        String,
    >)
        ensures
            final(self).chosen == Some(enabled),
            match path {
                Some(p) => r is Ok && (r->Ok_0).0 == p && (r->Ok_0).1@ == setting_text(enabled),
                None => r is Err && r->Err_0@ == "no HOME"@,
            },
    {
        self.chosen = Some(enabled);
        match path {
            Some(p) => Ok((p, auto_accept_text(enabled))),
            None => Err("no HOME".to_string()),
        }
    }
}

/// The setting reads back as it was written.
pub proof fn lemma_setting_round_trip(enabled: bool)
    ensures
        says_yes(Some(setting_text(enabled))) == enabled,
{
    reveal_strlit("1");
    reveal_strlit("0");
    let s = setting_text(enabled);
    assert(s =~= Seq::<char>::empty() + s + Seq::<char>::empty());
    text::lemma_trimmed_core(Seq::empty(), s, Seq::empty());
    assert("0"@[0] != "1"@[0]);
}

// ---------------------------------------------------------------------------
// Sizes
// ---------------------------------------------------------------------------

/// `a / b`, rounded to the nearest number, and to the even one where two are
/// equally near.
pub open spec fn rounded(a: nat, b: nat) -> nat {
    let q = a / b;
    let r = a % b;
    if 2 * r < b || (2 * r == b && q % 2 == 0) {
        q
    } else {
        q + 1
    }
}

/// The distance from one number to the next among those with 53 binary digits.
pub open spec fn grain(n: u64) -> nat {
    if n < 0x20000000000000 {
        1
    } else if n < 0x40000000000000 {
        2
    } else if n < 0x80000000000000 {
        4
    } else if n < 0x100000000000000 {
        8
    } else if n < 0x200000000000000 {
        16
    } else if n < 0x400000000000000 {
        32
    } else if n < 0x800000000000000 {
        64
    } else if n < 0x1000000000000000 {
        128
    } else if n < 0x2000000000000000 {
        256
    } else if n < 0x4000000000000000 {
        512
    } else if n < 0x8000000000000000 {
        1024
    } else {
        2048
    }
}

/// `n` with its first 53 binary digits, rounded.
pub open spec fn to_53_digits(n: u64) -> nat {
    rounded(n as nat, grain(n)) * grain(n)
}

/// A size, as it is shown.
pub open spec fn size_text(n: u64) -> Seq<char> {
    if n < 0x400 {
        text::decimal(n as nat) + " B"@
    } else if n < 0x10_0000 {
        text::decimal((n / 0x400) as nat) + " KB"@
    } else if n < 0x4000_0000 {
        let tenths = rounded(n as nat * 10, 0x10_0000);
        text::decimal(tenths / 10) + "."@ + text::decimal(tenths % 10) + " MB"@
    } else {
        let hundredths = rounded(to_53_digits(n) * 100, 0x4000_0000);
        text::decimal(hundredths / 100) + "."@ + text::decimal(hundredths / 10 % 10)
            + text::decimal(hundredths % 10) + " GB"@
    }
}

/// The distance from one number to the next among those with 53 binary digits.
fn grain_of(n: u64) -> (r: u128)
    ensures
        r == grain(n),
        1 <= r <= 2048,
{
    if n < 0x20000000000000 {
        1
    } else if n < 0x40000000000000 {
        2
    } else if n < 0x80000000000000 {
        4
    } else if n < 0x100000000000000 {
        8
    } else if n < 0x200000000000000 {
        16
    } else if n < 0x400000000000000 {
        32
    } else if n < 0x800000000000000 {
        64
    } else if n < 0x1000000000000000 {
        128
    } else if n < 0x2000000000000000 {
        256
    } else if n < 0x4000000000000000 {
        512
    } else if n < 0x8000000000000000 {
        1024
    } else {
        2048
    }
}

/// `a / b`, rounded.
fn round_div(a: u128, b: u128) -> (r: u128)
    requires
        0 < b <= 0x4000_0000,
        a <= 0xffff_ffff_ffff_ffff_ffff_ffff,
    ensures
        r == rounded(a as nat, b as nat),
        r <= a / b + 1,
{
    let q: u128 = a / b;
    let m: u128 = a % b;
    if 2 * m < b || (2 * m == b && q % 2 == 0) {
        q
    } else {
        assert(q <= a) by (nonlinear_arith)
            requires
                q == a / b,
                b > 0,
        ;
        q + 1
    }
}

/// Shows a size.
pub fn fmt_bytes(n: u64) -> (r: String)
    ensures
        r@ == size_text(n),
{
    if n < 0x400 {
        let mut m = decimal_text(n);
        m.append(" B");
        m
    } else if n < 0x10_0000 {
        let mut m = decimal_text(n / 0x400);
        m.append(" KB");
        m
    } else if n < 0x4000_0000 {
        let tenths: u128 = round_div(n as u128 * 10, 0x10_0000);
        let mut m = decimal_text((tenths / 10) as u64);
        m.append(".");
        m.append(decimal_text((tenths % 10) as u64).as_str());
        m.append(" MB");
        m
    } else {
        let g: u128 = grain_of(n);
        let q: u128 = round_div(n as u128, g);
        assert(q <= n + 1) by {
            assert(n as nat / g as nat <= n) by (nonlinear_arith)
                requires
                    g >= 1,
            ;
        }
        assert(q * g <= 0x1_0000_0000_0000_0000 * 2048) by (nonlinear_arith)
            requires
                q <= 0x1_0000_0000_0000_0000,
                g <= 2048,
        ;
        let v: u128 = q * g;
        let hundredths: u128 = round_div(v * 100, 0x4000_0000);
        let mut m = decimal_text((hundredths / 100) as u64);
        m.append(".");
        m.append(decimal_text((hundredths / 10 % 10) as u64).as_str());
        m.append(decimal_text((hundredths % 10) as u64).as_str());
        m.append(" GB");
        m
    }
}

// ---------------------------------------------------------------------------
// Asking
// ---------------------------------------------------------------------------

/// The title of the question about `count` files of this kind.
pub open spec fn question_title(kind: Seq<char>, count: usize) -> Seq<char> {
    let n = text::decimal(count as nat);
    let many = count > 1;
    if kind == "screenshot"@ {
        if many {
            "Phone took "@ + n + " screenshots"@
        } else {
            "Phone took a screenshot"@
        }
    } else if kind == "photo"@ {
        if many {
            "Phone took "@ + n + " photos"@
        } else {
            "Phone took a photo"@
        }
    } else if kind == "screen_recording"@ {
        if many {
            "Phone made "@ + n + " screen recordings"@
        } else {
            "Phone made a screen recording"@
        }
    } else if kind == "video"@ {
        if many {
            "Phone recorded "@ + n + " videos"@
        } else {
            "Phone recorded a video"@
        }
    } else {
        if many {
            "Phone wants to send "@ + n + " files"@
        } else {
            "Phone wants to send a file"@
        }
    }
}

/// `a`, a number, and `b`.
fn counted(a: &str, n: usize, b: &str) -> (r: String)
    ensures
        r@ == a@ + text::decimal(n as nat) + b@,
{
    let mut m = a.to_string();
    m.append(decimal_text(n as u64).as_str());
    m.append(b);
    m
}

/// The title of the question about `count` files of this kind.
pub fn request_title(kind: &str, count: usize) -> (r: String)
    ensures
        r@ == question_title(kind@, count),
{
    let many = count > 1;
    if same_text(kind, "screenshot") {
        if many {
            counted("Phone took ", count, " screenshots")
        } else {
            "Phone took a screenshot".to_string()
        }
    } else if same_text(kind, "photo") {
        if many {
            counted("Phone took ", count, " photos")
        } else {
            "Phone took a photo".to_string()
        }
    } else if same_text(kind, "screen_recording") {
        if many {
            counted("Phone made ", count, " screen recordings")
        } else {
            "Phone made a screen recording".to_string()
        }
    } else if same_text(kind, "video") {
        if many {
            counted("Phone recorded ", count, " videos")
        } else {
            "Phone recorded a video".to_string()
        }
    } else if many {
        counted("Phone wants to send ", count, " files")
    } else {
        "Phone wants to send a file".to_string()
    }
}

/// The text of the question: what is sent, and how large it is.
pub fn request_body(label: &str, total: u64) -> (r: String)
    ensures
        r@ == label@ + " \u{b7} "@ + size_text(total),
{
    let mut m = label.to_string();
    m.append(" \u{b7} ");
    m.append(fmt_bytes(total).as_str());
    m
}

/// What came of asking.
#[derive(Debug, Clone, Copy, PartialEq, Eq, Structural)]
pub enum Asked {
    /// The question could not be shown.
    NotShown,
    /// Nobody answered in time, or the question went away.
    Unanswered,
    Answered { accept: bool },
}

/// Whether the files are taken: without asking where the user wants it so, and
/// otherwise only when the user said yes.
pub fn decide(auto: bool, asked: Asked) -> (r: bool)
    ensures
        r == (auto || asked == (Asked::Answered { accept: true })),
{
    if auto {
        return true;
    }
    match asked {
        Asked::Answered { accept } => accept,
        _ => false,
    }
}

/// A button of one of these notifications.
#[derive(Debug, Clone, Copy, PartialEq, Eq, Structural)]
pub enum Button {
    Accept,
    Decline,
    Copy,
    Open,
    /// One of somebody else's.
    NotOurs,
}

/// The button that a key stands for.
pub open spec fn button_of(key: Seq<char>) -> Button {
    if key == "fc:accept"@ {
        Button::Accept
    } else if key == "fc:decline"@ {
        Button::Decline
    } else if key == "fc:copy"@ {
        Button::Copy
    } else if key == "fc:open"@ {
        Button::Open
    } else {
        Button::NotOurs
    }
}

/// The button that a key stands for.
pub fn route(key: &str) -> (r: Button)
    ensures
        r == button_of(key@),
{
    if same_text(key, "fc:accept") {
        Button::Accept
    } else if same_text(key, "fc:decline") {
        Button::Decline
    } else if same_text(key, "fc:copy") {
        Button::Copy
    } else if same_text(key, "fc:open") {
        Button::Open
    } else {
        Button::NotOurs
    }
}

// ---------------------------------------------------------------------------
// Telling
// ---------------------------------------------------------------------------

/// The title of the notification about a file of this kind.
pub open spec fn received_title(kind: Seq<char>) -> Seq<char> {
    if kind == "screenshot"@ {
        "Screenshot from your phone"@
    } else if kind == "photo"@ {
        "Photo from your phone"@
    } else if kind == "screen_recording"@ {
        "Screen recording from your phone"@
    } else if kind == "video"@ {
        "Video from your phone"@
    } else {
        "File from your phone"@
    }
}

/// The title of the notification about a file of this kind.
pub fn title_for(kind: &str) -> (r: String)
    ensures
        r@ == received_title(kind@),
{
    if same_text(kind, "screenshot") {
        "Screenshot from your phone".to_string()
    } else if same_text(kind, "photo") {
        "Photo from your phone".to_string()
    } else if same_text(kind, "screen_recording") {
        "Screen recording from your phone".to_string()
    } else if same_text(kind, "video") {
        "Video from your phone".to_string()
    } else {
        "File from your phone".to_string()
    }
}

/// The folder of a path.
pub open spec fn folder_of(path: Seq<char>) -> Seq<char> {
    let s = clipboard_sync::without_tail(path);
    s.take(clipboard_sync::behind_slash(s))
}

/// The name at the end of a path, or nothing.
pub open spec fn name_or_empty(path: Seq<char>) -> Seq<char> {
    match clipboard_sync::final_name(path) {
        Some(n) => n,
        None => ""@,
    }
}

/// The text of the notification about a file: its name, and the folder it lies
/// in.
pub open spec fn received_text(path: Seq<char>) -> Seq<char> {
    name_or_empty(path) + " \u{b7} saved to "@ + name_or_empty(folder_of(path))
}

/// The folder of a path.
fn folder(path: &str) -> (r: String)
    ensures
        r@ == folder_of(path@),
{
    let chars = chars_of(path);
    let mut to: usize = chars.len();
    assert(path@.take(to as int) =~= path@);
    while to > 0 && (chars[to - 1] == '/' || (chars[to - 1] == '.' && (to == 1 || chars[to - 2]
        == '/')))
        invariant
            to <= chars@.len(),
            chars@ == path@,
            clipboard_sync::without_tail(path@) == clipboard_sync::without_tail(
                path@.take(to as int),
            ),
        decreases to,
    {
        assert(path@.take(to as int).last() == chars@[to - 1]);
        assert(path@.take(to as int).drop_last() =~= path@.take(to - 1));
        to -= 1;
    }
    let ghost s = path@.take(to as int);
    assert(clipboard_sync::without_tail(path@) == s) by {
        if to > 0 {
            assert(s.last() == chars@[to - 1]);
            if to > 1 {
                assert(s[s.len() - 2] == chars@[to - 2]);
            }
        }
    }
    let mut from: usize = to;
    assert(s.take(from as int) =~= s);
    while from > 0 && chars[from - 1] != '/'
        invariant
            from <= to <= chars@.len(),
            chars@ == path@,
            s == path@.take(to as int),
            clipboard_sync::behind_slash(s) == clipboard_sync::behind_slash(s.take(from as int)),
        decreases from,
    {
        assert(s.take(from as int).last() == chars@[from - 1]);
        assert(s.take(from as int).drop_last() =~= s.take(from - 1));
        from -= 1;
    }
    assert(clipboard_sync::behind_slash(s) == from) by {
        if from > 0 {
            assert(s.take(from as int).last() == chars@[from - 1]);
        }
    }
    let r = text_between(&chars, 0, from);
    assert(r@ =~= s.take(from as int));
    r
}

/// The name at the end of a path, or nothing.
fn name_at_end(path: &str) -> (r: String)
    ensures
        r@ == name_or_empty(path@),
{
    match file_name(path) {
        Some(n) => n,
        None => "".to_string(),
    }
}

/// The text of the notification about a file.
pub fn received_body(path: &str) -> (r: String)
    ensures
        r@ == received_text(path@),
{
    let mut m = name_at_end(path);
    m.append(" \u{b7} saved to ");
    m.append(name_at_end(folder(path).as_str()).as_str());
    m
}

/// The most files that are remembered for their buttons.
pub const RECEIVED_MAX: usize = 64;

/// Which notification is about which file. One that nobody touches is never heard
/// of again, so the oldest are forgotten.
pub struct Received {
    pub files: Vec<(u32, String)>,
}

impl View for Received {
    type V = Seq<(u32, Seq<char>)>;

    open spec fn view(&self) -> Seq<(u32, Seq<char>)> {
        self.files@.map_values(|f: (u32, String)| (f.0, f.1@))
    }
}

/// The last `RECEIVED_MAX` of a list.
pub open spec fn newest(v: Seq<(u32, Seq<char>)>) -> Seq<(u32, Seq<char>)> {
    if v.len() > RECEIVED_MAX {
        v.skip(v.len() - RECEIVED_MAX)
    } else {
        v
    }
}

/// The place of the first file of a notification, or the number of files.
pub open spec fn place_of(v: Seq<(u32, Seq<char>)>, id: u32) -> int
    decreases v.len(),
{
    if v.len() == 0 || v[0].0 == id {
        0
    } else {
        1 + place_of(v.drop_first(), id)
    }
}

impl Received {
    /// Nothing was received yet.
    pub fn new() -> (r: Self)
        ensures
            r@ == Seq::<(u32, Seq<char>)>::empty(),
    {
        let r = Received { files: Vec::new() };
        assert(r@ =~= Seq::<(u32, Seq<char>)>::empty());
        r
    }

    /// A notification about a file was shown.
    pub fn note(&mut self, id: u32, path: String)
        ensures
            final(self)@ == newest(old(self)@.push((id, path@))),
    {
        let ghost all = self@.push((id, path@));
        self.files.push((id, path));
        assert(self@ =~= all);
        let ghost mut gone: int = 0;
        assert(all.skip(0) =~= all);
        while self.files.len() > RECEIVED_MAX
            invariant
                0 <= gone <= all.len(),
                self@ == all.skip(gone),
                gone == 0 || all.len() - gone >= RECEIVED_MAX,
            decreases self.files.len(),
        {
            let ghost before = self@;
            let _old = self.files.remove(0);
            proof {
                assert(self@ =~= before.remove(0));
                assert(before.remove(0) =~= all.skip(gone + 1));
                gone = gone + 1;
            }
        }
        proof {
            assert(self@.len() == self.files@.len());
            assert(self@ =~= newest(all));
        }
    }

    /// The file that a notification is about. It is forgotten, since a
    /// notification is closed once it was acted on.
    pub fn take_received(&mut self, id: u32) -> (r: Option<String>)
        ensures
            ({
                let at = place_of(old(self)@, id);
                if at < old(self)@.len() {
                    r is Some && r->0@ == old(self)@[at].1 && final(self)@ == old(self)@.remove(at)
                } else {
                    r is None && final(self)@ == old(self)@
                }
            }),
    {
        let ghost views = self@;
        let mut i: usize = 0;
        assert(views.skip(0) =~= views);
        while i < self.files.len()
            invariant
                i <= self.files@.len(),
                views == self@,
                views == old(self)@,
                place_of(views, id) == i + place_of(views.skip(i as int), id),
            decreases self.files.len() - i,
        {
            assert(views.skip(i as int)[0] == views[i as int]);
            assert(views.skip(i as int).drop_first() =~= views.skip(i + 1));
            if self.files[i].0 == id {
                let f = self.files.remove(i);
                assert(self@ =~= views.remove(i as int));
                return Some(f.1);
            }
            i += 1;
        }
        None
    }
}

/// A button works once: the file of a notification is gone after it was taken,
/// when no other entry has the same number.
pub proof fn lemma_taken_once(v: Seq<(u32, Seq<char>)>, id: u32)
    requires
        place_of(v, id) < v.len(),
        forall|i: int, j: int| 0 <= i < j < v.len() ==> (#[trigger] v[i]).0 != (#[trigger] v[j]).0,
    ensures
        place_of(v.remove(place_of(v, id)), id) >= v.remove(place_of(v, id)).len(),
{
    lemma_place(v, id);
    let at = place_of(v, id);
    let w = v.remove(at);
    assert forall|j: int| 0 <= j < w.len() implies (#[trigger] w[j]).0 != id by {
        if j < at {
            assert(w[j] == v[j]);
        } else {
            assert(w[j] == v[j + 1]);
            assert(v[at].0 != v[j + 1].0);
        }
    }
    lemma_absent(w, id);
}

proof fn lemma_place(v: Seq<(u32, Seq<char>)>, id: u32)
    ensures
        0 <= place_of(v, id) <= v.len(),
        place_of(v, id) < v.len() ==> v[place_of(v, id)].0 == id,
        forall|j: int| 0 <= j < place_of(v, id) ==> (#[trigger] v[j]).0 != id,
    decreases v.len(),
{
    if v.len() > 0 && v[0].0 != id {
        lemma_place(v.drop_first(), id);
        assert forall|j: int| 0 <= j < place_of(v, id) implies (#[trigger] v[j]).0 != id by {
            if j > 0 {
                assert(v.drop_first()[j - 1].0 != id);
            }
        }
    }
}

proof fn lemma_absent(v: Seq<(u32, Seq<char>)>, id: u32)
    requires
        forall|j: int| 0 <= j < v.len() ==> (#[trigger] v[j]).0 != id,
    ensures
        place_of(v, id) >= v.len(),
{
    lemma_place(v, id);
}

/// Consent fails closed: without the user's yes no file is taken, unless the user has said once
/// and for all that none has to be asked about.
pub proof fn lemma_no_yes_no_file(auto: bool, asked: Asked, r: bool)
    requires
        call_ensures(decide, (auto, asked), r),
    ensures
        auto ==> r,
        !auto && asked is NotShown ==> !r,
        !auto && asked is Unanswered ==> !r,
        !auto && asked is Answered ==> r == asked->accept,
{
}

/// The standing consent: the user's choice in this process counts at once and for good; before
/// that, what was written down does, and only the digit one in it means yes, with white space
/// around it or none.
pub proof fn lemma_standing_consent(
    set: &mut AutoAccept,
    enabled: bool,
    path: Option<String>,
    r: Result<(String, String), String>,
    after: &mut AutoAccept,
    fresh: &mut AutoAccept,
    written: &Option<String>,
    now: bool,
    first: bool,
)
    requires
        call_ensures(AutoAccept::set_file_auto_accept, (set, enabled, path), r),
        old(after).chosen == final(set).chosen,
        call_ensures(AutoAccept::get_file_auto_accept, (after, written), now),
        old(fresh).chosen is None,
        call_ensures(AutoAccept::get_file_auto_accept, (fresh, written), first),
    ensures
        now == enabled,
        written is None ==> !first,
        written is Some ==> (first <==> text::trimmed(written->0@) == "1"@),
        final(fresh).chosen == Some(first),
        r is Ok <==> path is Some,
        r is Ok ==> (r->Ok_0).0 == path->0 && (r->Ok_0).1@ == if enabled {
            "1"@
        } else {
            "0"@
        },
{
}

/// Each button has a key of its own, and a key of somebody else is no button of these.
pub proof fn lemma_keys_of_the_buttons(key: Seq<char>)
    ensures
        button_of("fc:accept"@) is Accept,
        button_of("fc:decline"@) is Decline,
        button_of("fc:copy"@) is Copy,
        button_of("fc:open"@) is Open,
        key != "fc:accept"@ && key != "fc:decline"@ && key != "fc:copy"@ && key != "fc:open"@
            ==> button_of(key) is NotOurs,
{
    reveal_strlit("fc:accept");
    reveal_strlit("fc:decline");
    reveal_strlit("fc:copy");
    reveal_strlit("fc:open");
    assert("fc:accept"@.len() == 9 && "fc:decline"@.len() == 10 && "fc:copy"@.len() == 7
        && "fc:open"@.len() == 7);
    assert("fc:copy"@[3] != "fc:open"@[3]);
}

/// A size in bytes below one kilobyte, in whole kilobytes below one megabyte, with one digit
/// behind the point below one gigabyte and with two from there on. The number that is shown
/// differs from the size by half a unit of the last digit at most.
pub proof fn lemma_sizes_are_rounded(n: u64)
    ensures
        n < 1024 ==> size_text(n) == text::decimal(n as nat) + " B"@,
        1024 <= n < 1_048_576 ==> size_text(n) == text::decimal((n / 1024) as nat) + " KB"@,
        1_048_576 <= n < 1_073_741_824 ==> exists|t: nat|
            {
                &&& size_text(n) == #[trigger] text::decimal(t / 10) + "."@ + text::decimal(t % 10)
                    + " MB"@
                &&& -524_288 <= t * 1_048_576 - n * 10 <= 524_288
            },
        1_073_741_824 <= n < 0x20_0000_0000_0000 ==> exists|t: nat|
            {
                &&& size_text(n) == #[trigger] text::decimal(t / 100) + "."@ + text::decimal(
                    t / 10 % 10,
                ) + text::decimal(t % 10) + " GB"@
                &&& -536_870_912 <= t * 1_073_741_824 - n * 100 <= 536_870_912
            },
{
    if 1_048_576 <= n < 1_073_741_824 {
        let t = rounded(n as nat * 10, 0x10_0000);
        lemma_rounding(n as nat * 10, 0x10_0000);
        assert(size_text(n) == text::decimal(t / 10) + "."@ + text::decimal(t % 10) + " MB"@);
    }
    if 1_073_741_824 <= n < 0x20_0000_0000_0000 {
        lemma_rounding(n as nat, 1);
        assert(to_53_digits(n) == n);
        let t = rounded(n as nat * 100, 0x4000_0000);
        lemma_rounding(n as nat * 100, 0x4000_0000);
        assert(size_text(n) == text::decimal(t / 100) + "."@ + text::decimal(t / 10 % 10)
            + text::decimal(t % 10) + " GB"@);
    }
}

proof fn lemma_rounding(a: nat, b: nat)
    requires
        b > 0,
    ensures
        -(b as int) <= 2 * (rounded(a, b) * b - a) <= b,
        b == 1 ==> rounded(a, b) == a,
{
    let q = a / b;
    let r = a % b;
    assert(a == q * b + r && r < b) by (nonlinear_arith)
        requires
            b > 0,
            q == a / b,
            r == a % b,
    ;
    assert((q + 1) * b == q * b + b) by (nonlinear_arith);
}

/// What the user is asked tells the kind of the files and their number, and what they are
/// called and how large they are.
pub proof fn lemma_question_tells_kind_and_number(kind: Seq<char>, count: usize)
    ensures
        ({
            let n = text::decimal(count as nat);
            &&& count > 1 ==> {
                &&& question_title("screenshot"@, count) == "Phone took "@ + n + " screenshots"@
                &&& question_title("photo"@, count) == "Phone took "@ + n + " photos"@
                &&& question_title("screen_recording"@, count) == "Phone made "@ + n
                    + " screen recordings"@
                &&& question_title("video"@, count) == "Phone recorded "@ + n + " videos"@
            }
            &&& count <= 1 ==> {
                &&& question_title("screenshot"@, count) == "Phone took a screenshot"@
                &&& question_title("photo"@, count) == "Phone took a photo"@
                &&& question_title("screen_recording"@, count) == "Phone made a screen recording"@
                &&& question_title("video"@, count) == "Phone recorded a video"@
            }
            &&& kind != "screenshot"@ && kind != "photo"@ && kind != "screen_recording"@ && kind
                != "video"@ ==> question_title(kind, count) == if count > 1 {
                "Phone wants to send "@ + n + " files"@
            } else {
                "Phone wants to send a file"@
            }
            &&& received_title("screenshot"@) == "Screenshot from your phone"@
            &&& received_title("photo"@) == "Photo from your phone"@
            &&& received_title("screen_recording"@) == "Screen recording from your phone"@
            &&& received_title("video"@) == "Video from your phone"@
            &&& kind != "screenshot"@ && kind != "photo"@ && kind != "screen_recording"@ && kind
                != "video"@ ==> received_title(kind) == "File from your phone"@
        }),
{
    reveal_strlit("screenshot");
    reveal_strlit("photo");
    reveal_strlit("screen_recording");
    reveal_strlit("video");
    assert("screenshot"@.len() == 10 && "photo"@.len() == 5 && "screen_recording"@.len() == 16
        && "video"@.len() == 5);
    assert("photo"@[0] != "video"@[0]);
}

/// The question names what is sent and its size.
pub proof fn lemma_question_names_the_file(label: &str, total: u64, r: String)
    requires
        call_ensures(request_body, (label, total), r),
    ensures
        r@ == label@ + " \u{b7} "@ + size_text(total),
{
}

/// A notification about a file leads to that file: what was noted last under a number is found
/// under it, as long as no more than 64 files came since, and once.
pub proof fn lemma_notification_leads_to_its_file(
    noted: &mut Received,
    id: u32,
    path: String,
    taken: &mut Received,
    r: Option<String>,
)
    requires
        forall|j: int| 0 <= j < old(noted)@.len() ==> (#[trigger] old(noted)@[j]).0 != id,
        call_ensures(Received::note, (noted, id, path), ()),
        old(taken)@ == final(noted)@,
        call_ensures(Received::take_received, (taken, id), r),
    ensures
        r is Some && r->0@ == path@,
        old(noted)@.len() < 64 ==> final(noted)@ == old(noted)@.push((id, path@)) && final(taken)@
            == old(noted)@,
        final(noted)@.len() <= 64,
        old(noted)@.len() >= 64 ==> final(noted)@.len() == 64,
{
    let all = old(noted)@.push((id, path@));
    let v = final(noted)@;
    assert(v == newest(all));
    let k = v.len() - 1;
    assert(v[k] == (id, path@));
    assert forall|j: int| 0 <= j < k implies (#[trigger] v[j]).0 != id by {
        let off = all.len() - v.len();
        assert(v[j] == all[j + off]);
        assert(all[j + off] == old(noted)@[j + off]);
    }
    lemma_place(v, id);
    if place_of(v, id) < k {
        assert(v[place_of(v, id)].0 != id);
    }
    assert(place_of(v, id) == k);
    if old(noted)@.len() < 64 {
        assert(v.remove(k) =~= old(noted)@);
    }
}

/// Where the standing consent is written down: below the home directory on Linux, in the
/// directory of the settings on Windows, and nowhere without that directory.
pub proof fn lemma_where_consent_is_kept(home: Seq<char>, config: Seq<char>, other: Option<Seq<char>>)
    requires
        home.len() > 0 && home.last() != '/',
        config.len() > 0 && config.last() != '\\',
    ensures
        setting_file(Host::Linux, Some(home), other) == Some(
            home + seq!['/'] + ".local/share/vortex/file_auto_accept"@,
        ),
        setting_file(Host::Windows, other, Some(config)) == Some(
            config + seq!['\\'] + "file_auto_accept"@,
        ),
        setting_file(Host::Linux, None, other) is None,
        setting_file(Host::Windows, other, None) is None,
{
    assert(home.push('/') =~= home + seq!['/']);
    assert(config.push('\\') =~= config + seq!['\\']);
}

/// What is said about a file that came: its name, and the name of the folder that it lies in.
pub proof fn lemma_received_file_is_named(base: Seq<char>, folder: Seq<char>, name: Seq<char>)
    requires
        name.len() > 0 && folder.len() > 0,
        forall|i: int| 0 <= i < name.len() ==> #[trigger] name[i] != '/',
        forall|i: int| 0 <= i < folder.len() ==> #[trigger] folder[i] != '/',
        name != "."@ && name != ".."@ && folder != "."@ && folder != ".."@,
    ensures
        received_text(base + seq!['/'] + folder + seq!['/'] + name) == name + " \u{b7} saved to "@ + folder,
{
    let dir = base + seq!['/'] + folder;
    let path = dir + seq!['/'] + name;
    clipboard_sync::lemma_path_has_a_folder(dir, name);
    clipboard_sync::lemma_path_has_a_folder(base, folder);
    clipboard_sync::lemma_slash_at_the_end(dir);
    assert(name_or_empty(path) == name);
    assert(folder_of(path) == dir.push('/'));
    assert(name_or_empty(dir.push('/')) == folder);
}

/// Without a place for it the standing consent holds for this process, and the user is told.
pub proof fn lemma_consent_without_a_place(
    set: &mut AutoAccept,
    enabled: bool,
    r: Result<(String, String), String>,
)
    requires
        call_ensures(AutoAccept::set_file_auto_accept, (set, enabled, None::<String>), r),
    ensures
        r is Err && r->Err_0@ == "no HOME"@,
        final(set).chosen == Some(enabled),
{
}

/// The user has three quarters of a minute to answer, and sixty-four notifications keep their
/// files.
pub proof fn lemma_limits_of_a_question()
    ensures
        ANSWER_SECS == 45,
        RECEIVED_MAX == 64,
{
}

/// A size above what a number with 53 digits holds is rounded to such a number first: what is
/// shown differs from it by half a hundredth of a gigabyte at most, and the number that is
/// shown from by no more than one part in 2 to the 53rd.
pub proof fn lemma_large_sizes_are_rounded(n: u64)
    requires
        n >= 1_073_741_824,
    ensures
        exists|m: nat, t: nat|
            {
                &&& size_text(n) == #[trigger] text::decimal(t / 100) + "."@ + text::decimal(t / 10 % 10)
                    + text::decimal(t % 10) + " GB"@
                &&& -536_870_912 <= t * 1_073_741_824 - #[trigger] (m * 100) <= 536_870_912
                &&& 0x20_0000_0000_0000 * (m - n) <= n
                &&& 0x20_0000_0000_0000 * (n - m) <= n
            },
{
    let m = to_53_digits(n);
    let g = grain(n);
    lemma_rounding(n as nat, g);
    assert(2 * (m - n) <= g && 2 * (n - m) <= g);
    assert(n >= 0x20_0000_0000_0000 ==> 0x10_0000_0000_0000 * g <= n);
    let t = rounded(m * 100, 0x4000_0000);
    lemma_rounding(m * 100, 0x4000_0000);
    assert(size_text(n) == text::decimal(t / 100) + "."@ + text::decimal(t / 10 % 10) + text::decimal(
        t % 10,
    ) + " GB"@);
    if n < 0x20_0000_0000_0000 {
        assert(m == n);
    }
}

} // verus!
