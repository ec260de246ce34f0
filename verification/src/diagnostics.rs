//! What this machine can and cannot do, in one place, and as a report that a user
//! can paste into an issue.

use vstd::prelude::*;

use crate::text;
use crate::text::{
    chars_of, contains, decimal_text, ends_with, lines, pad, same_text, starts_with, tail, text_between,
    to_lowercase, trim,
};

verus! {

/// One finding.
#[derive(Debug, Clone, PartialEq, Eq)]
pub struct Check<S = String> {
    /// What was looked at.
    pub id: S,
    /// `ok`, `warn`, `fail` or `unknown`.
    pub level: S,
    /// What was found, to be shown as it is.
    pub detail: S,
}

/// What a finding says.
pub type SpecCheck = Check<Seq<char>>;

impl View for Check {
    type V = SpecCheck;

    open spec fn view(&self) -> SpecCheck {
        Check { id: self.id@, level: self.level@, detail: self.detail@ }
    }
}

/// What a list of findings says.
pub open spec fn check_views(v: Seq<Check>) -> Seq<SpecCheck> {
    v.map_values(|c: Check| c@)
}

/// All findings.
#[derive(Debug, Clone, PartialEq, Eq)]
pub struct Diagnostics {
    pub app_version: String,
    pub checks: Vec<Check>,
    pub log_path: String,
}

/// What the machine answered when it was asked.
pub struct Answers {
    pub app_version: String,
    pub log_path: String,
    /// The text of `/etc/os-release`.
    pub os_release: Option<String>,
    /// The kind of session.
    pub session: Option<String>,
    /// The name of the desktop.
    pub desktop: Option<String>,
    /// What the Bluetooth tool says of the adapter.
    pub adapter: Option<String>,
    /// Scan rounds in which the adapter discovered nothing at all.
    pub wedged: u32,
    /// The number of phones that are paired.
    pub paired: usize,
    /// What the Android debug bridge says of its devices.
    pub adb: Option<String>,
    /// Input can be sent to the phone.
    pub transport: bool,
    /// The shell has the extension loaded.
    pub shell_loaded: bool,
    /// There is a keyring.
    pub keyring: bool,
    /// The encoders that the media library has.
    pub x264enc: bool,
    pub openh264enc: bool,
}

/// `s` without the prefix that marks the name of a distribution, however often it
/// stands there.
pub open spec fn without_mark(s: Seq<char>) -> Seq<char>
    decreases s.len(),
{
    let mark = "PRETTY_NAME="@;
    if mark.len() > 0 && text::has_prefix(s, mark) {
        without_mark(s.skip(mark.len() as int))
    } else {
        s
    }
}

/// `s` without quotes at its front.
pub open spec fn skip_quotes(s: Seq<char>) -> Seq<char>
    decreases s.len(),
{
    if s.len() > 0 && s[0] == '"' {
        skip_quotes(s.drop_first())
    } else {
        s
    }
}

/// `s` without quotes at its end.
pub open spec fn drop_quotes(s: Seq<char>) -> Seq<char>
    decreases s.len(),
{
    if s.len() > 0 && s.last() == '"' {
        drop_quotes(s.drop_last())
    } else {
        s
    }
}

/// The name of the distribution in a list of lines.
pub open spec fn name_in(lines: Seq<Seq<char>>) -> Option<Seq<char>>
    decreases lines.len(),
{
    if lines.len() == 0 {
        None
    } else if text::has_prefix(lines[0], "PRETTY_NAME="@) {
        Some(drop_quotes(skip_quotes(without_mark(lines[0]))))
    } else {
        name_in(lines.drop_first())
    }
}

/// The name of the distribution.
pub open spec fn distro_of(os_release: Option<Seq<char>>) -> Seq<char> {
    match os_release {
        Some(t) => match name_in(text::lines_of(t)) {
            Some(n) => n,
            None => "unknown"@,
        },
        None => "unknown"@,
    }
}

/// Takes the mark of a distribution's name away.
fn strip_mark(s: &str) -> (r: String)
    ensures
        r@ == without_mark(s@),
{
    proof {
        reveal_strlit("PRETTY_NAME=");
    }
    let mut rest = s.to_string();
    while starts_with(rest.as_str(), "PRETTY_NAME=")
        invariant
            "PRETTY_NAME="@.len() == 12,
            without_mark(rest@) == without_mark(s@),
        decreases rest@.len(),
    {
        rest = tail(rest.as_str(), 12);
    }
    rest
}

/// Takes the quotes around a text away.
fn strip_quotes(s: &str) -> (r: String)
    ensures
        r@ == drop_quotes(skip_quotes(s@)),
{
    let chars = chars_of(s);
    let mut from: usize = 0;
    assert(s@.skip(0) =~= s@);
    while from < chars.len() && chars[from] == '"'
        invariant
            from <= chars@.len(),
            chars@ == s@,
            skip_quotes(s@) == skip_quotes(s@.skip(from as int)),
        decreases chars.len() - from,
    {
        assert(s@.skip(from as int).drop_first() =~= s@.skip(from + 1));
        from += 1;
    }
    let ghost body = s@.skip(from as int);
    assert(skip_quotes(s@) == body);
    let mut to: usize = chars.len();
    assert(body.take(to - from) =~= body);
    while to > from && chars[to - 1] == '"'
        invariant
            from <= to <= chars@.len(),
            chars@ == s@,
            body == s@.skip(from as int),
            drop_quotes(body) == drop_quotes(body.take(to - from)),
        decreases to - from,
    {
        assert(body.take(to - from).last() == chars@[to - 1]);
        assert(body.take(to - from).drop_last() =~= body.take(to - from - 1));
        to -= 1;
    }
    let ghost core = body.take(to - from);
    assert(drop_quotes(body) == core) by {
        if to > from {
            assert(core.last() == chars@[to - 1]);
        }
    }
    let r = text_between(&chars, from, to);
    assert(r@ =~= core);
    r
}

/// The name of the distribution.
pub fn distro(os_release: &Option<String>) -> (r: String)
    ensures
        r@ == distro_of(text::maybe(*os_release)),
{
    match os_release {
        Some(t) => {
            let all = lines(t.as_str());
            let ghost views = text::texts(all@);
            let mut i: usize = 0;
            assert(views.skip(0) =~= views);
            while i < all.len()
                invariant
                    i <= all@.len(),
                    views == text::texts(all@),
                    views == text::lines_of(t@),
                    *os_release == Some(*t),
                    name_in(views) == name_in(views.skip(i as int)),
                decreases all.len() - i,
            {
                assert(views.skip(i as int)[0] == all@[i as int]@);
                assert(views.skip(i as int).drop_first() =~= views.skip(i + 1));
                if starts_with(all[i].as_str(), "PRETTY_NAME=") {
                    return strip_quotes(strip_mark(all[i].as_str()).as_str());
                }
                i += 1;
            }
            "unknown".to_string()
        },
        None => "unknown".to_string(),
    }
}

/// The number of lines that tell of a device that is attached.
pub open spec fn attached(lines: Seq<Seq<char>>) -> nat
    decreases lines.len(),
{
    if lines.len() == 0 {
        0
    } else {
        attached(lines.drop_last()) + if text::has_suffix(
            text::trimmed(lines.last()),
            "device"@,
        ) {
            1nat
        } else {
            0nat
        }
    }
}

/// The number of devices in what the debug bridge says: below the first line,
/// which is a heading.
pub open spec fn devices_in(out: Seq<char>) -> nat {
    let l = text::lines_of(out);
    attached(l.subrange(if l.len() > 0 {
        1
    } else {
        0
    }, l.len() as int))
}

/// The number of devices in what the debug bridge says.
fn count_devices(out: &str) -> (r: usize)
    ensures
        r == devices_in(out@),
{
    let all = lines(out);
    let ghost views = text::lines_of(out@);
    let start: usize = if all.len() > 0 {
        1
    } else {
        0
    };
    let ghost body = views.subrange(start as int, views.len() as int);
    let mut n: usize = 0;
    let mut i: usize = start;
    assert(body.take(0) =~= Seq::<Seq<char>>::empty());
    while i < all.len()
        invariant
            start <= i <= all@.len(),
            views == text::texts(all@),
            body == views.subrange(start as int, views.len() as int),
            n == attached(body.take(i - start)),
            n <= i,
        decreases all.len() - i,
    {
        assert(body.take(i + 1 - start).drop_last() =~= body.take(i - start));
        assert(body.take(i + 1 - start).last() == all@[i as int]@);
        if ends_with(trim(all[i].as_str()).as_str(), "device") {
            n += 1;
        }
        i += 1;
    }
    assert(body.take(i - start) =~= body);
    n
}

/// A finding.
fn check(id: &str, level: &str, detail: String) -> (r: Check)
    ensures
        r@ == (Check { id: id@, level: level@, detail: detail@ }),
{
    Check { id: id.to_string(), level: level.to_string(), detail }
}

/// A finding, as a value of the model.
pub open spec fn finding(id: Seq<char>, level: Seq<char>, detail: Seq<char>) -> SpecCheck {
    Check { id, level, detail }
}

/// What a missing answer reads as.
pub open spec fn or_unknown(s: Option<Seq<char>>) -> Seq<char> {
    match s {
        Some(t) => t,
        None => "unknown"@,
    }
}

/// The finding on the adapter: without one nothing else works.
pub open spec fn adapter_check(adapter: Option<Seq<char>>) -> SpecCheck {
    match adapter {
        Some(s) => if text::contains_text(s, "Powered: yes"@) {
            finding("bluetooth"@, "ok"@, "adapter powered"@)
        } else if text::contains_text(s, "Powered: no"@) {
            finding("bluetooth"@, "fail"@, "adapter present but powered off"@)
        } else {
            finding("bluetooth"@, "warn"@, "adapter state unclear"@)
        },
        None => finding("bluetooth"@, "fail"@, "no adapter (bluetoothctl found none)"@),
    }
}

/// The finding on discovery: an adapter may be powered and still find nothing.
pub open spec fn discovery_check(wedged: u32) -> SpecCheck {
    if wedged > 0 {
        finding(
            "bluetooth_discovery"@,
            "fail"@,
            "adapter is powered but not discovering ("@ + text::decimal(wedged as nat)
                + " scan round(s)) \u{2014} turn Bluetooth off and on to clear it"@,
        )
    } else {
        finding("bluetooth_discovery"@, "ok"@, "scanning works"@)
    }
}

/// The finding on paired phones.
pub open spec fn paired_check(paired: usize) -> SpecCheck {
    if paired > 0 {
        finding("paired"@, "ok"@, text::decimal(paired as nat) + " device(s)"@)
    } else {
        finding("paired"@, "warn"@, "no phone paired yet"@)
    }
}

/// The finding on the debug bridge, which some features need.
pub open spec fn adb_check(adb: Option<Seq<char>>) -> SpecCheck {
    match adb {
        None => finding("adb"@, "warn"@, "adb not installed (screen features need it)"@),
        Some(out) => if devices_in(out) > 0 {
            finding("adb"@, "ok"@, text::decimal(devices_in(out)) + " device(s) attached"@)
        } else {
            finding("adb"@, "warn"@, "installed, no device attached"@)
        },
    }
}

/// The finding on the shell's extension. `folded` is the name of the desktop in
/// small letters.
pub open spec fn extension_check(folded: Seq<char>, loaded: bool) -> SpecCheck {
    if !text::contains_text(folded, "gnome"@) {
        finding("gnome_extension"@, "warn"@, "not GNOME \u{2014} pill unavailable"@)
    } else if loaded {
        finding("gnome_extension"@, "ok"@, "loaded in the shell"@)
    } else {
        finding("gnome_extension"@, "warn"@, "not loaded \u{2014} log out and back in once"@)
    }
}

/// The finding on encoders: one of the two is enough.
pub open spec fn encoder_check(x264enc: bool, openh264enc: bool) -> SpecCheck {
    if x264enc {
        finding("gstreamer"@, "ok"@, "x264enc present"@)
    } else if openh264enc {
        finding("gstreamer"@, "ok"@, "openh264enc present"@)
    } else {
        finding(
            "gstreamer"@,
            "warn"@,
            "no H.264 encoder (x264enc or openh264enc) \u{2014} screen sharing cannot encode"@,
        )
    }
}

/// All findings, in the order in which they are shown. `folded` is the name of
/// the desktop in small letters.
pub open spec fn all_checks(a: Answers, folded: Seq<char>) -> Seq<SpecCheck> {
    seq![
        finding("distro"@, "ok"@, distro_of(text::maybe(a.os_release))),
        finding(
            "desktop"@,
            "ok"@,
            or_unknown(text::maybe(a.desktop)) + " ("@ + or_unknown(text::maybe(a.session)) + ")"@,
        ),
        adapter_check(text::maybe(a.adapter)),
        discovery_check(a.wedged),
        paired_check(a.paired),
        adb_check(text::maybe(a.adb)),
        if a.transport {
            finding("injector"@, "ok"@, "input transport up"@)
        } else {
            finding("injector"@, "warn"@, "no input transport (cursor sharing idle)"@)
        },
        extension_check(folded, a.shell_loaded),
        if a.keyring {
            finding("keyring"@, "ok"@, "Secret Service available"@)
        } else {
            finding("keyring"@, "fail"@, "no Secret Service (pairing cannot be saved)"@)
        },
        encoder_check(a.x264enc, a.openh264enc),
    ]
}

/// What a missing answer reads as.
fn known(s: &Option<String>) -> (r: String)
    ensures
        r@ == or_unknown(text::maybe(*s)),
{
    match s {
        Some(t) => t.as_str().to_string(),
        None => "unknown".to_string(),
    }
}

/// The finding on the adapter.
fn check_adapter(adapter: &Option<String>) -> (r: Check)
    ensures
        r@ == adapter_check(text::maybe(*adapter)),
{
    match adapter {
        Some(s) => {
            if contains(s.as_str(), "Powered: yes") {
                check("bluetooth", "ok", "adapter powered".to_string())
            } else if contains(s.as_str(), "Powered: no") {
                check("bluetooth", "fail", "adapter present but powered off".to_string())
            } else {
                check("bluetooth", "warn", "adapter state unclear".to_string())
            }
        },
        None => check("bluetooth", "fail", "no adapter (bluetoothctl found none)".to_string()),
    }
}

/// The finding on discovery.
fn check_discovery(wedged: u32) -> (r: Check)
    ensures
        r@ == discovery_check(wedged),
{
    if wedged > 0 {
        let mut m = "adapter is powered but not discovering (".to_string();
        m.append(decimal_text(wedged as u64).as_str());
        m.append(" scan round(s)) \u{2014} turn Bluetooth off and on to clear it");
        check("bluetooth_discovery", "fail", m)
    } else {
        check("bluetooth_discovery", "ok", "scanning works".to_string())
    }
}

/// The finding on paired phones.
fn check_paired(paired: usize) -> (r: Check)
    ensures
        r@ == paired_check(paired),
{
    if paired > 0 {
        let mut m = decimal_text(paired as u64);
        m.append(" device(s)");
        check("paired", "ok", m)
    } else {
        check("paired", "warn", "no phone paired yet".to_string())
    }
}

/// The finding on the debug bridge.
fn check_adb(adb: &Option<String>) -> (r: Check)
    ensures
        r@ == adb_check(text::maybe(*adb)),
{
    match adb {
        None => check("adb", "warn", "adb not installed (screen features need it)".to_string()),
        Some(out) => {
            let n: usize = count_devices(out.as_str());
            if n > 0 {
                let mut m = decimal_text(n as u64);
                m.append(" device(s) attached");
                check("adb", "ok", m)
            } else {
                check("adb", "warn", "installed, no device attached".to_string())
            }
        },
    }
}

/// The finding on the shell's extension.
fn check_extension(folded: &str, loaded: bool) -> (r: Check)
    ensures
        r@ == extension_check(folded@, loaded),
{
    if !contains(folded, "gnome") {
        check("gnome_extension", "warn", "not GNOME \u{2014} pill unavailable".to_string())
    } else if loaded {
        check("gnome_extension", "ok", "loaded in the shell".to_string())
    } else {
        check(
            "gnome_extension",
            "warn",
            "not loaded \u{2014} log out and back in once".to_string(),
        )
    }
}

/// The finding on encoders.
fn check_encoder(x264enc: bool, openh264enc: bool) -> (r: Check)
    ensures
        r@ == encoder_check(x264enc, openh264enc),
{
    if x264enc {
        check("gstreamer", "ok", "x264enc present".to_string())
    } else if openh264enc {
        check("gstreamer", "ok", "openh264enc present".to_string())
    } else {
        check(
            "gstreamer",
            "warn",
            "no H.264 encoder (x264enc or openh264enc) \u{2014} screen sharing cannot encode".to_string(),
        )
    }
}

/// All findings. `folded` is the name of the desktop in small letters.
pub fn diagnose(a: Answers, folded: &str) -> (r: Diagnostics)
    ensures
        check_views(r.checks@) == all_checks(a, folded@),
        r.app_version == a.app_version,
        r.log_path == a.log_path,
{
    let mut checks: Vec<Check> = Vec::new();
    checks.push(check("distro", "ok", distro(&a.os_release)));
    let mut shown = known(&a.desktop);
    shown.append(" (");
    shown.append(known(&a.session).as_str());
    shown.append(")");
    checks.push(check("desktop", "ok", shown));
    checks.push(check_adapter(&a.adapter));
    checks.push(check_discovery(a.wedged));
    checks.push(check_paired(a.paired));
    checks.push(check_adb(&a.adb));
    checks.push(
        if a.transport {
            check("injector", "ok", "input transport up".to_string())
        } else {
            check("injector", "warn", "no input transport (cursor sharing idle)".to_string())
        },
    );
    checks.push(check_extension(folded, a.shell_loaded));
    checks.push(
        if a.keyring {
            check("keyring", "ok", "Secret Service available".to_string())
        } else {
            check("keyring", "fail", "no Secret Service (pairing cannot be saved)".to_string())
        },
    );
    checks.push(check_encoder(a.x264enc, a.openh264enc));
    assert(check_views(checks@) =~= all_checks(a, folded@));
    Diagnostics { app_version: a.app_version, checks, log_path: a.log_path }
}

/// All findings.
pub fn diagnostics(a: Answers) -> (r: Diagnostics)
    ensures
        check_views(r.checks@) == all_checks(
            a,
            text::lowercased(or_unknown(text::maybe(a.desktop))),
        ),
        r.app_version == a.app_version,
        r.log_path == a.log_path,
{
    let folded = to_lowercase(known(&a.desktop).as_str());
    diagnose(a, folded.as_str())
}

/// The mark of a level in the report.
pub open spec fn level_mark(level: Seq<char>) -> Seq<char> {
    if level == "ok"@ {
        "ok  "@
    } else if level == "warn"@ {
        "warn"@
    } else if level == "fail"@ {
        "FAIL"@
    } else {
        "?   "@
    }
}

/// The lines of the report about findings.
pub open spec fn report_lines(checks: Seq<SpecCheck>) -> Seq<char>
    decreases checks.len(),
{
    if checks.len() == 0 {
        Seq::empty()
    } else {
        let c = checks.last();
        report_lines(checks.drop_last()) + level_mark(c.level) + "  "@ + text::padded(c.id) + " "@
            + c.detail + "\n"@
    }
}

/// The report.
pub open spec fn report_of(version: Seq<char>, checks: Seq<SpecCheck>, log: Seq<char>) -> Seq<char> {
    "Vortex "@ + version + "\n"@ + report_lines(checks) + "\nlog: "@ + log + "\n"@
}

/// The findings as text, to be pasted into an issue.
pub fn diagnostics_report(d: &Diagnostics) -> (r: String)
    ensures
        r@ == report_of(d.app_version@, check_views(d.checks@), d.log_path@),
{
    let mut s = "Vortex ".to_string();
    s.append(d.app_version.as_str());
    s.append("\n");
    let ghost head = s@;
    let ghost views = check_views(d.checks@);
    let mut i: usize = 0;
    assert(views.take(0) =~= Seq::<SpecCheck>::empty());
    assert(head + report_lines(views.take(0)) =~= head);
    while i < d.checks.len()
        invariant
            i <= d.checks@.len(),
            views == check_views(d.checks@),
            s@ == head + report_lines(views.take(i as int)),
        decreases d.checks.len() - i,
    {
        let c = &d.checks[i];
        let ghost before = s@;
        assert(views.take(i + 1).drop_last() =~= views.take(i as int));
        assert(views.take(i + 1).last() == c@);
        let level = c.level.as_str();
        let mark = if same_text(level, "ok") {
            "ok  "
        } else if same_text(level, "warn") {
            "warn"
        } else if same_text(level, "fail") {
            "FAIL"
        } else {
            "?   "
        };
        s.append(mark);
        s.append("  ");
        s.append(pad(c.id.as_str()).as_str());
        s.append(" ");
        s.append(c.detail.as_str());
        s.append("\n");
        assert(s@ =~= head + report_lines(views.take(i + 1)));
        i += 1;
    }
    assert(views.take(views.len() as int) =~= views);
    s.append("\nlog: ");
    s.append(d.log_path.as_str());
    s.append("\n");
    s
}

/// What a command that was run says: nothing, where it failed.
pub fn cmd_ok(success: bool, stdout: &str) -> (r: Option<String>)
    ensures
        text::maybe(r) == if success {
            Some(text::trimmed(stdout@))
        } else {
            None
        },
{
    if success {
        Some(trim(stdout))
    } else {
        None
    }
}

/// Whether anyone owns a name on the bus, by what the bus says.
pub fn bus_name_owned(answer: &Option<String>) -> (r: bool)
    ensures
        r == match *answer {
            Some(s) => text::contains_text(s@, "true"@),
            None => false,
        },
{
    match answer {
        Some(s) => contains(s.as_str(), "true"),
        None => false,
    }
}

/// What is found of the machine, in the order in which it is shown: what each finding is about,
/// and how bad it is, by what the machine answered.
pub proof fn lemma_how_bad_it_is(a: Answers, folded: &str, d: Diagnostics)
    requires
        call_ensures(diagnose, (a, folded), d),
    ensures
        ({
            let c = check_views(d.checks@);
            let adapter = text::maybe(a.adapter);
            let gnome = text::contains_text(folded@, "gnome"@);
            &&& c.len() == 10
            &&& c[0].id == "distro"@ && c[0].level == "ok"@
            &&& c[1].id == "desktop"@ && c[1].level == "ok"@
            &&& c[2].id == "bluetooth"@
            &&& adapter is None ==> c[2].level == "fail"@
            &&& adapter is Some && text::contains_text(adapter->0, "Powered: yes"@) ==> c[2].level
                == "ok"@
            &&& adapter is Some && !text::contains_text(adapter->0, "Powered: yes"@)
                && text::contains_text(adapter->0, "Powered: no"@) ==> c[2].level == "fail"@
            &&& adapter is Some && !text::contains_text(adapter->0, "Powered: yes"@)
                && !text::contains_text(adapter->0, "Powered: no"@) ==> c[2].level == "warn"@
            &&& c[3].id == "bluetooth_discovery"@ && (c[3].level == if a.wedged == 0 {
                "ok"@
            } else {
                "fail"@
            })
            &&& c[4].id == "paired"@ && (c[4].level == if a.paired >= 1 {
                "ok"@
            } else {
                "warn"@
            })
            &&& c[5].id == "adb"@ && (c[5].level == if a.adb is Some && devices_in(a.adb->0@) >= 1 {
                "ok"@
            } else {
                "warn"@
            })
            &&& c[6].id == "injector"@ && (c[6].level == if a.transport {
                "ok"@
            } else {
                "warn"@
            })
            &&& c[7].id == "gnome_extension"@ && (c[7].level == if gnome && a.shell_loaded {
                "ok"@
            } else {
                "warn"@
            })
            &&& c[8].id == "keyring"@ && (c[8].level == if a.keyring {
                "ok"@
            } else {
                "fail"@
            })
            &&& c[9].id == "gstreamer"@ && (c[9].level == if a.x264enc || a.openh264enc {
                "ok"@
            } else {
                "warn"@
            })
        }),
{
}

/// What the findings say of the machine.
pub proof fn lemma_what_the_findings_say(a: Answers, folded: &str, d: Diagnostics)
    requires
        call_ensures(diagnose, (a, folded), d),
    ensures
        ({
            let c = check_views(d.checks@);
            &&& a.desktop is Some && a.session is Some ==> c[1].detail == a.desktop->0@ + " ("@
                + a.session->0@ + ")"@
            &&& a.desktop is None && a.session is None ==> c[1].detail == "unknown"@ + " ("@
                + "unknown"@ + ")"@
            &&& a.adapter is None ==> c[2].detail == "no adapter (bluetoothctl found none)"@
            &&& a.adapter is Some && text::contains_text(a.adapter->0@, "Powered: yes"@)
                ==> c[2].detail == "adapter powered"@
            &&& a.wedged > 0 ==> c[3].detail == "adapter is powered but not discovering ("@
                + text::decimal(a.wedged as nat)
                + " scan round(s)) \u{2014} turn Bluetooth off and on to clear it"@
            &&& a.wedged == 0 ==> c[3].detail == "scanning works"@
            &&& a.paired > 0 ==> c[4].detail == text::decimal(a.paired as nat) + " device(s)"@
            &&& a.paired == 0 ==> c[4].detail == "no phone paired yet"@
            &&& a.adb is None ==> c[5].detail == "adb not installed (screen features need it)"@
            &&& a.adb is Some && devices_in(a.adb->0@) > 0 ==> c[5].detail == text::decimal(
                devices_in(a.adb->0@),
            ) + " device(s) attached"@
            &&& a.adb is Some && devices_in(a.adb->0@) == 0 ==> c[5].detail
                == "installed, no device attached"@
            &&& c[6].detail == if a.transport {
                "input transport up"@
            } else {
                "no input transport (cursor sharing idle)"@
            }
            &&& c[8].detail == if a.keyring {
                "Secret Service available"@
            } else {
                "no Secret Service (pairing cannot be saved)"@
            }
            &&& a.x264enc ==> c[9].detail == "x264enc present"@
            &&& !a.x264enc && a.openh264enc ==> c[9].detail == "openh264enc present"@
            &&& !text::contains_text(folded@, "gnome"@) ==> c[7].detail
                == "not GNOME \u{2014} pill unavailable"@
            &&& text::contains_text(folded@, "gnome"@) ==> c[7].detail == if a.shell_loaded {
                "loaded in the shell"@
            } else {
                "not loaded \u{2014} log out and back in once"@
            }
        }),
{
}

/// A line more below the heading is a device more when it ends in `device`, and none otherwise; the
/// heading is no device.
pub proof fn lemma_devices_are_counted(out: Seq<char>, more: Seq<char>, line: Seq<char>)
    requires
        text::lines_of(out).len() >= 1,
        text::lines_of(more) == text::lines_of(out).push(line),
    ensures
        text::lines_of(out).len() == 1 ==> devices_in(out) == 0,
        text::has_suffix(text::trimmed(line), "device"@) ==> devices_in(more) == devices_in(out) + 1,
        !text::has_suffix(text::trimmed(line), "device"@) ==> devices_in(more) == devices_in(out),
{
    let l = text::lines_of(out);
    let m = text::lines_of(more);
    let below = m.subrange(1, m.len() as int);
    assert(below.drop_last() =~= l.subrange(1, l.len() as int));
    assert(below.last() == line);
}

/// The name of the distribution is what stands between the quotes on the line for it.
pub proof fn lemma_name_of_the_distribution(name: Seq<char>, rest: Seq<char>)
    requires
        name.len() > 0,
        name[0] != '"' && name.last() != '"',
        forall|i: int| 0 <= i < name.len() ==> #[trigger] name[i] != '\n',
    ensures
        distro_of(Some("PRETTY_NAME="@ + seq!['"'] + name + seq!['"', '\n'] + rest)) == name,
        distro_of(None) == "unknown"@,
{
    let mark = "PRETTY_NAME="@;
    reveal_strlit("PRETTY_NAME=");
    let line = mark + seq!['"'] + name + seq!['"'];
    let t = mark + seq!['"'] + name + seq!['"', '\n'] + rest;
    let n = line.len() as int;
    assert forall|i: int| 0 <= i < n implies #[trigger] t[i] != '\n' by {
        if i < 12 {
            assert(t[i] == mark[i]);
        } else if i > 12 && i < n - 1 {
            assert(t[i] == name[i - 13]);
        }
    }
    assert(t[n] == '\n');
    text::lemma_first_of_is(t, '\n', n);
    assert(t.take(n) =~= line);
    assert(line.last() == '"');
    let all = text::lines_of(t);
    assert(all[0] == line);
    assert(line.subrange(0, 12) =~= mark);
    let quoted = seq!['"'] + name + seq!['"'];
    assert(line.skip(12) =~= quoted);
    assert(without_mark(line) == quoted) by {
        reveal_with_fuel(without_mark, 2);
        if text::has_prefix(quoted, mark) {
            assert(quoted.subrange(0, 12)[0] == quoted[0]);
            assert(mark[0] == 'P');
        }
    }
    let tail = name + seq!['"'];
    assert(quoted.drop_first() =~= tail);
    assert(tail[0] == name[0]);
    assert(skip_quotes(quoted) == tail) by {
        reveal_with_fuel(skip_quotes, 2);
    }
    assert(tail.drop_last() =~= name);
    assert(drop_quotes(tail) == name) by {
        reveal_with_fuel(drop_quotes, 2);
    }
}

/// The report begins with the version and ends with where the log is, and one more finding is
/// one more line of it, behind the others: the mark of its level, its name in a column of
/// sixteen letters, and what it says.
pub proof fn lemma_every_finding_is_reported(
    d: &Diagnostics,
    r: String,
    more: &Diagnostics,
    longer: String,
    c: SpecCheck,
)
    requires
        call_ensures(diagnostics_report, (d,), r),
        call_ensures(diagnostics_report, (more,), longer),
        more.app_version == d.app_version,
        more.log_path == d.log_path,
        check_views(more.checks@) == check_views(d.checks@).push(c),
        c.id.len() < 16,
    ensures
        d.checks@.len() == 0 ==> r@ == "Vortex "@ + d.app_version@ + "\n"@ + "\nlog: "@ + d.log_path@
            + "\n"@,
        exists|before: Seq<char>, mark: Seq<char>|
            {
                &&& r@ == #[trigger] (before + "\nlog: "@) + d.log_path@ + "\n"@
                &&& longer@ == before + (#[trigger] (mark + "  "@)) + (c.id + Seq::new(
                    (16 - c.id.len()) as nat,
                    |i: int| ' ',
                )) + " "@ + c.detail + "\n"@ + "\nlog: "@ + d.log_path@ + "\n"@
                &&& c.level == "ok"@ ==> mark == "ok  "@
                &&& c.level == "warn"@ ==> mark == "warn"@
                &&& c.level == "fail"@ ==> mark == "FAIL"@
                &&& c.level != "ok"@ && c.level != "warn"@ && c.level != "fail"@ ==> mark == "?   "@
            },
{
    reveal_strlit("ok");
    reveal_strlit("warn");
    reveal_strlit("fail");
    assert("ok"@.len() == 2 && "warn"@.len() == 4 && "fail"@.len() == 4);
    assert("warn"@[0] != "fail"@[0]);
    let views = check_views(d.checks@);
    let all = check_views(more.checks@);
    assert(all.drop_last() =~= views);
    assert(all.last() == c);
    let before = "Vortex "@ + d.app_version@ + "\n"@ + report_lines(views);
    let mark = level_mark(c.level);
    if d.checks@.len() == 0 {
        assert("Vortex "@ + d.app_version@ + "\n"@ + report_lines(views) =~= "Vortex "@
            + d.app_version@ + "\n"@);
    }
    let log = "\nlog: "@;
    assert(longer@ =~= before + (mark + "  "@) + (c.id + Seq::new(
        (16 - c.id.len()) as nat,
        |i: int| ' ',
    )) + " "@ + c.detail + "\n"@ + log + d.log_path@ + "\n"@);
    assert(r@ == (before + log) + d.log_path@ + "\n"@);
}

/// What a command said counts when it succeeded, without white space around it; a name on the
/// bus is owned when the bus says so.
pub proof fn lemma_what_a_command_said(
    success: bool,
    stdout: &str,
    r: Option<String>,
    answer: &Option<String>,
    owned: bool,
)
    requires
        call_ensures(cmd_ok, (success, stdout), r),
        call_ensures(bus_name_owned, (answer,), owned),
    ensures
        r is Some <==> success,
        r is Some ==> r->0@ == text::trimmed(stdout@),
        owned <==> answer is Some && text::contains_text(answer->0@, "true"@),
{
}

/// What the findings say of an adapter that is off or does not say, and of a machine without an
/// encoder.
pub proof fn lemma_what_the_bad_findings_say(a: Answers, folded: &str, d: Diagnostics)
    requires
        call_ensures(diagnose, (a, folded), d),
        a.adapter is Some && !text::contains_text(a.adapter->0@, "Powered: yes"@),
        !a.x264enc && !a.openh264enc,
    ensures
        ({
            let c = check_views(d.checks@);
            &&& text::contains_text(a.adapter->0@, "Powered: no"@) ==> c[2].detail
                == "adapter present but powered off"@
            &&& !text::contains_text(a.adapter->0@, "Powered: no"@) ==> c[2].detail
                == "adapter state unclear"@
            &&& c[9].detail
                == "no H.264 encoder (x264enc or openh264enc) \u{2014} screen sharing cannot encode"@
        }),
{
}

/// The desktop is recognised whatever the capitals of its name.
pub proof fn lemma_desktop_is_recognised(a: Answers, r: Diagnostics)
    requires
        call_ensures(diagnostics, (a,), r),
    ensures
        r.app_version == a.app_version,
        r.log_path == a.log_path,
        a.desktop is Some && a.shell_loaded ==> (check_views(r.checks@)[7].detail
            == "loaded in the shell"@ || !text::contains_text(
            text::lowercased(a.desktop->0@),
            "gnome"@,
        )),
        a.desktop is Some && !text::contains_text(text::lowercased(a.desktop->0@), "gnome"@) ==> check_views(
            r.checks@,
        )[7].detail == "not GNOME \u{2014} pill unavailable"@,
{
}

} // verus!
