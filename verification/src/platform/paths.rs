//! The user's directories. They are localised and can be moved, so none of them
//! is found by joining an English name to the home directory.

use vstd::prelude::*;

use crate::platform::Host;
use crate::text;
use crate::text::{chars_of, lines, same_text, split_once, strip_prefix, text_between,
    text_of, trim};

verus! {

/// A value without one pair of quotes around it, double or single.
pub open spec fn unquoted(v: Seq<char>) -> Seq<char> {
    if v.len() >= 2 && (v[0] == '"' && v.last() == '"' || v[0] == '\'' && v.last() == '\'') {
        v.subrange(1, v.len() - 1)
    } else {
        v
    }
}

/// What one line of a `user-dirs.dirs` file assigns to `key`: a comment and
/// another key assign nothing.
pub open spec fn assigned(line: Seq<char>, key: Seq<char>) -> Option<Seq<char>> {
    let line = text::trimmed(line);
    let n = text::first_of(line, '=');
    if line.len() > 0 && line[0] == '#' || n >= line.len() || text::trimmed(line.take(n)) != key {
        None
    } else {
        Some(unquoted(text::trimmed(line.skip(n + 1))))
    }
}

/// What a list of lines assigns to `key`: the last assignment counts.
pub open spec fn last_assigned(lines: Seq<Seq<char>>, key: Seq<char>) -> Option<Seq<char>>
    decreases lines.len(),
{
    if lines.len() == 0 {
        None
    } else {
        match assigned(lines.last(), key) {
            Some(v) => Some(v),
            None => last_assigned(lines.drop_last(), key),
        }
    }
}

/// What a list of lines names under `key`: the value that was assigned last,
/// unless that one is empty.
pub open spec fn named_dir(lines: Seq<Seq<char>>, key: Seq<char>) -> Option<Seq<char>> {
    match last_assigned(lines, key) {
        Some(v) if v.len() > 0 => Some(v),
        _ => None,
    }
}

fn unquote(v: &str) -> (r: String)
    ensures
        r@ == unquoted(v@),
{
    let c = chars_of(v);
    if c.len() >= 2 && ((c[0] == '"' && c[c.len() - 1] == '"') || (c[0] == '\'' && c[c.len() - 1]
        == '\'')) {
        text_between(&c, 1, c.len() - 1)
    } else {
        v.to_owned()
    }
}

fn read_line(line: &str, key: &str) -> (r: Option<String>)
    ensures
        text::maybe(r) == assigned(line@, key@),
{
    let line = trim(line);
    let c = chars_of(line.as_str());
    proof {
        text::lemma_first_of(line@, '=');
    }
    if c.len() > 0 && c[0] == '#' {
        return None;
    }
    match split_once(line.as_str(), '=') {
        None => None,
        Some((k, v)) => {
            let k = trim(k.as_str());
            if !same_text(k.as_str(), key) {
                return None;
            }
            Some(unquote(trim(v.as_str()).as_str()))
        },
    }
}

/// What the text of a `user-dirs.dirs` file names under `key`: shell syntax, with
/// comments, and the last assignment counts, also when it empties the key.
pub fn parse_user_dirs(text: &str, key: &str) -> (r: Option<String>)
    ensures
        text::maybe(r) == named_dir(text::lines_of(text@), key@),
{
    let all = lines(text);
    let ghost ls = text::lines_of(text@);
    let mut found: Option<String> = None;
    let mut i: usize = 0;
    assert(ls.take(0) =~= Seq::<Seq<char>>::empty());
    while i < all.len()
        invariant
            text::texts(all@) == ls,
            i <= all@.len(),
            text::maybe(found) == last_assigned(ls.take(i as int), key@),
        decreases all.len() - i,
    {
        let v = read_line(all[i].as_str(), key);
        assert(ls[i as int] == all@[i as int]@);
        assert(ls.take(i + 1).drop_last() =~= ls.take(i as int));
        assert(ls.take(i + 1).last() == ls[i as int]);
        if v.is_some() {
            found = v;
        }
        i += 1;
    }
    assert(ls.take(i as int) =~= ls);
    match found {
        Some(v) => if v.as_str().is_empty() {
            None
        } else {
            Some(v)
        },
        None => None,
    }
}

/// `name` in the directory `base`, with the separator `sep` between them unless
/// `base` is empty or ends with it.
pub open spec fn joined_with(base: Seq<char>, name: Seq<char>, sep: char) -> Seq<char> {
    if base.len() == 0 || base.last() == sep {
        base + name
    } else {
        base.push(sep) + name
    }
}

/// The relative path `name` in the directory `base`.
pub open spec fn joined(base: Seq<char>, name: Seq<char>) -> Seq<char> {
    joined_with(base, name, '/')
}

/// `name` in the directory `base`, with the separator `sep`.
pub fn join_with(base: &str, name: &str, sep: char) -> (r: String)
    ensures
        r@ == joined_with(base@, name@, sep),
{
    let mut v = chars_of(base);
    if v.len() > 0 && v[v.len() - 1] != sep {
        v.push(sep);
    }
    let mut s = text_of(&v);
    s.append(name);
    assert(s@ =~= joined_with(base@, name@, sep));
    s
}

/// The relative path `name` in the directory `base`.
pub fn join(base: &str, name: &str) -> (r: String)
    ensures
        r@ == joined(base@, name@),
{
    join_with(base, name, '/')
}

/// `s` without the slashes that it begins with.
pub open spec fn without_slashes(s: Seq<char>) -> Seq<char>
    decreases s.len(),
{
    if s.len() > 0 && s[0] == '/' {
        without_slashes(s.drop_first())
    } else {
        s
    }
}

fn strip_slashes(s: &str) -> (r: String)
    ensures
        r@ == without_slashes(s@),
{
    let v = chars_of(s);
    let mut i: usize = 0;
    assert(s@.skip(0) =~= s@);
    while i < v.len() && v[i] == '/'
        invariant
            v@ == s@,
            i <= v@.len(),
            without_slashes(s@) == without_slashes(s@.skip(i as int)),
        decreases v.len() - i,
    {
        assert(s@.skip(i as int).drop_first() =~= s@.skip(i + 1));
        i += 1;
    }
    assert(v@.subrange(i as int, v@.len() as int) =~= s@.skip(i as int));
    text_between(&v, i, v.len())
}

/// What stands behind `sign` in `raw`, where `sign` is a part of the path of its
/// own: nothing or a slash follows it.
pub open spec fn behind_sign(raw: Seq<char>, sign: Seq<char>) -> Option<Seq<char>> {
    let rest = raw.skip(sign.len() as int);
    if text::has_prefix(raw, sign) && (rest.len() == 0 || rest[0] == '/') {
        Some(rest)
    } else {
        None
    }
}

/// What stands behind the home directory's sign in `raw`: behind `$HOME`,
/// `${HOME}` or `~`. The home directory of somebody else, as in `~name`, is not
/// meant by any of them.
pub open spec fn behind_home(raw: Seq<char>) -> Option<Seq<char>> {
    match behind_sign(raw, "$HOME"@) {
        Some(rest) => Some(rest),
        None => match behind_sign(raw, "${HOME}"@) {
            Some(rest) => Some(rest),
            None => behind_sign(raw, "~"@),
        },
    }
}

/// The directory that `raw` names: one behind the home directory's sign, or an
/// absolute one. A relative path names none.
pub open spec fn expanded(raw: Seq<char>, home: Seq<char>) -> Option<Seq<char>> {
    let raw = text::trimmed(raw);
    match behind_home(raw) {
        Some(rest) => {
            let rest = without_slashes(rest);
            Some(
                if rest.len() == 0 {
                    home
                } else {
                    joined(home, rest)
                },
            )
        },
        None => if raw.len() > 0 && raw[0] == '/' {
            Some(raw)
        } else {
            None
        },
    }
}

fn after_sign(raw: &str, sign: &str) -> (r: Option<String>)
    ensures
        text::maybe(r) == behind_sign(raw@, sign@),
{
    match strip_prefix(raw, sign) {
        Some(rest) => {
            let c = chars_of(rest.as_str());
            if c.len() == 0 || c[0] == '/' {
                Some(rest)
            } else {
                None
            }
        },
        None => None,
    }
}

fn after_home(raw: &str) -> (r: Option<String>)
    ensures
        text::maybe(r) == behind_home(raw@),
{
    match after_sign(raw, "$HOME") {
        Some(rest) => Some(rest),
        None => match after_sign(raw, "${HOME}") {
            Some(rest) => Some(rest),
            None => after_sign(raw, "~"),
        },
    }
}

/// Expands the home directory's sign at the start of `raw`. Anything else must
/// be absolute: guessing could scatter files over the working directory.
pub fn expand_home(raw: &str, home: &str) -> (r: Option<String>)
    ensures
        text::maybe(r) == expanded(raw@, home@),
{
    let raw = trim(raw);
    match after_home(raw.as_str()) {
        Some(rest) => {
            let rest = strip_slashes(rest.as_str());
            if rest.as_str().is_empty() {
                Some(home.to_owned())
            } else {
                Some(join(home, rest.as_str()))
            }
        },
        None => if is_absolute(raw.as_str()) {
            Some(raw)
        } else {
            None
        },
    }
}

/// Whether a path starts at the root.
pub fn is_absolute(p: &str) -> (r: bool)
    ensures
        r == (p@.len() > 0 && p@[0] == '/'),
{
    let v = chars_of(p);
    v.len() > 0 && v[0] == '/'
}

/// The standard user directories.
pub trait UserPaths {
    spec fn downloads_dir(&self) -> Option<Seq<char>>;

    spec fn config_dir(&self) -> Option<Seq<char>>;

    spec fn cache_dir(&self) -> Option<Seq<char>>;

    spec fn logs_dir(&self) -> Option<Seq<char>>;

    /// Where received files are saved.
    fn downloads(&self) -> (r: Option<String>)
        ensures
            text::maybe(r) == self.downloads_dir(),
    ;

    /// Where settings are kept.
    fn config(&self) -> (r: Option<String>)
        ensures
            text::maybe(r) == self.config_dir(),
    ;

    /// Where caches are kept.
    fn cache(&self) -> (r: Option<String>)
        ensures
            text::maybe(r) == self.cache_dir(),
    ;

    /// Where a log file goes.
    fn logs(&self) -> (r: Option<String>)
        ensures
            text::maybe(r) == self.logs_dir(),
    ;
}

/// What a Linux session says of the user's directories: the values of the
/// environment variables, and the text of the `user-dirs.dirs` file.
pub struct LinuxPaths {
    pub home: Option<String>,
    pub xdg_cache_home: Option<String>,
    pub xdg_config_home: Option<String>,
    pub xdg_download_dir: Option<String>,
    pub user_dirs: Option<String>,
}

/// The directory that a variable names if it is absolute, else `fallback` in the
/// home directory.
pub open spec fn base_dir(
    home: Seq<char>,
    var: Option<Seq<char>>,
    fallback: Seq<char>,
) -> Seq<char> {
    match var {
        Some(p) => if p.len() > 0 && p[0] == '/' {
            p
        } else {
            joined(home, fallback)
        },
        None => joined(home, fallback),
    }
}

fn choose_base(home: &str, var: &Option<String>, fallback: &str) -> (r: String)
    ensures
        r@ == base_dir(home@, text::maybe(*var), fallback@),
{
    match var {
        Some(p) => if is_absolute(p.as_str()) {
            p.clone()
        } else {
            join(home, fallback)
        },
        None => join(home, fallback),
    }
}

/// The download directory that the user has configured, by the environment or
/// else by the file.
pub open spec fn configured_downloads(
    home: Seq<char>,
    var: Option<Seq<char>>,
    user_dirs: Option<Seq<char>>,
) -> Option<Seq<char>> {
    let by_var = match var {
        Some(v) => expanded(v, home),
        None => None,
    };
    match by_var {
        Some(p) => Some(p),
        None => match user_dirs {
            Some(t) => match named_dir(text::lines_of(t), "XDG_DOWNLOAD_DIR"@) {
                Some(v) => expanded(v, home),
                None => None,
            },
            None => None,
        },
    }
}

impl LinuxPaths {
    /// The configured download directory.
    pub fn xdg_download_dir(&self, home: &str) -> (r: Option<String>)
        ensures
            text::maybe(r) == configured_downloads(
                home@,
                text::maybe(self.xdg_download_dir),
                text::maybe(self.user_dirs),
            ),
    {
        match &self.xdg_download_dir {
            Some(v) => match expand_home(v.as_str(), home) {
                Some(p) => {
                    return Some(p);
                },
                None => {},
            },
            None => {},
        }
        match &self.user_dirs {
            Some(t) => match parse_user_dirs(t.as_str(), "XDG_DOWNLOAD_DIR") {
                Some(v) => expand_home(v.as_str(), home),
                None => None,
            },
            None => None,
        }
    }

    /// The directory of configuration files.
    pub fn config_home(&self) -> (r: Option<String>)
        ensures
            text::maybe(r) == (match self.home {
                Some(h) => Some(base_dir(h@, text::maybe(self.xdg_config_home), ".config"@)),
                None => None,
            }),
    {
        match &self.home {
            Some(h) => Some(choose_base(h.as_str(), &self.xdg_config_home, ".config")),
            None => None,
        }
    }

    /// The file that assigns the user's directories.
    pub fn user_dirs_file(&self) -> (r: Option<String>)
        ensures
            text::maybe(r) == (match self.home {
                Some(h) => Some(
                    joined(
                        base_dir(h@, text::maybe(self.xdg_config_home), ".config"@),
                        "user-dirs.dirs"@,
                    ),
                ),
                None => None,
            }),
    {
        match self.config_home() {
            Some(c) => Some(join(c.as_str(), "user-dirs.dirs")),
            None => None,
        }
    }
}

impl UserPaths for LinuxPaths {
    open spec fn downloads_dir(&self) -> Option<Seq<char>> {
        match self.home {
            Some(h) => Some(
                match configured_downloads(h@, text::maybe(self.xdg_download_dir), text::maybe(self.user_dirs)) {
                    Some(p) => p,
                    None => joined(h@, "Downloads"@),
                },
            ),
            None => None,
        }
    }

    open spec fn config_dir(&self) -> Option<Seq<char>> {
        match self.home {
            Some(h) => Some(
                joined(base_dir(h@, text::maybe(self.xdg_config_home), ".config"@), "vortex"@),
            ),
            None => None,
        }
    }

    open spec fn cache_dir(&self) -> Option<Seq<char>> {
        match self.home {
            Some(h) => Some(joined(base_dir(h@, text::maybe(self.xdg_cache_home), ".cache"@), "vortex"@)),
            None => None,
        }
    }

    open spec fn logs_dir(&self) -> Option<Seq<char>> {
        self.cache_dir()
    }

    fn downloads(&self) -> (r: Option<String>) {
        match &self.home {
            Some(h) => match self.xdg_download_dir(h.as_str()) {
                Some(p) => Some(p),
                None => Some(join(h.as_str(), "Downloads")),
            },
            None => None,
        }
    }

    fn config(&self) -> (r: Option<String>) {
        match self.config_home() {
            Some(c) => Some(join(c.as_str(), "vortex")),
            None => None,
        }
    }

    fn cache(&self) -> (r: Option<String>) {
        match &self.home {
            Some(h) => {
                let base = choose_base(h.as_str(), &self.xdg_cache_home, ".cache");
                Some(join(base.as_str(), "vortex"))
            },
            None => None,
        }
    }

    fn logs(&self) -> (r: Option<String>) {
        self.cache()
    }
}

/// The folders that Windows knows for the user.
pub struct WindowsPaths {
    pub downloads: Option<String>,
    /// Application data that follows the user from machine to machine.
    pub roaming: Option<String>,
    /// Application data of this machine.
    pub local: Option<String>,
}

impl UserPaths for WindowsPaths {
    open spec fn downloads_dir(&self) -> Option<Seq<char>> {
        text::maybe(self.downloads)
    }

    open spec fn config_dir(&self) -> Option<Seq<char>> {
        match self.roaming {
            Some(p) => Some(joined_with(p@, "Vortex"@, '\\')),
            None => None,
        }
    }

    open spec fn cache_dir(&self) -> Option<Seq<char>> {
        match self.local {
            Some(p) => Some(joined_with(joined_with(p@, "Vortex"@, '\\'), "Cache"@, '\\')),
            None => None,
        }
    }

    open spec fn logs_dir(&self) -> Option<Seq<char>> {
        match self.local {
            Some(p) => Some(joined_with(p@, "Vortex"@, '\\')),
            None => None,
        }
    }

    fn downloads(&self) -> (r: Option<String>) {
        match &self.downloads {
            Some(p) => Some(p.clone()),
            None => None,
        }
    }

    fn config(&self) -> (r: Option<String>) {
        match &self.roaming {
            Some(p) => Some(join_with(p.as_str(), "Vortex", '\\')),
            None => None,
        }
    }

    fn cache(&self) -> (r: Option<String>) {
        match &self.local {
            Some(p) => {
                let v = join_with(p.as_str(), "Vortex", '\\');
                Some(join_with(v.as_str(), "Cache", '\\'))
            },
            None => None,
        }
    }

    fn logs(&self) -> (r: Option<String>) {
        match &self.local {
            Some(p) => Some(join_with(p.as_str(), "Vortex", '\\')),
            None => None,
        }
    }
}

/// The user's directories on this machine.
pub enum HostPaths {
    Linux(LinuxPaths),
    Windows(WindowsPaths),
}

impl UserPaths for HostPaths {
    open spec fn downloads_dir(&self) -> Option<Seq<char>> {
        match self {
            HostPaths::Linux(p) => p.downloads_dir(),
            HostPaths::Windows(p) => p.downloads_dir(),
        }
    }

    open spec fn config_dir(&self) -> Option<Seq<char>> {
        match self {
            HostPaths::Linux(p) => p.config_dir(),
            HostPaths::Windows(p) => p.config_dir(),
        }
    }

    open spec fn cache_dir(&self) -> Option<Seq<char>> {
        match self {
            HostPaths::Linux(p) => p.cache_dir(),
            HostPaths::Windows(p) => p.cache_dir(),
        }
    }

    open spec fn logs_dir(&self) -> Option<Seq<char>> {
        match self {
            HostPaths::Linux(p) => p.logs_dir(),
            HostPaths::Windows(p) => p.logs_dir(),
        }
    }

    fn downloads(&self) -> (r: Option<String>) {
        match self {
            HostPaths::Linux(p) => p.downloads(),
            HostPaths::Windows(p) => p.downloads(),
        }
    }

    fn config(&self) -> (r: Option<String>) {
        match self {
            HostPaths::Linux(p) => p.config(),
            HostPaths::Windows(p) => p.config(),
        }
    }

    fn cache(&self) -> (r: Option<String>) {
        match self {
            HostPaths::Linux(p) => p.cache(),
            HostPaths::Windows(p) => p.cache(),
        }
    }

    fn logs(&self) -> (r: Option<String>) {
        match self {
            HostPaths::Linux(p) => p.logs(),
            HostPaths::Windows(p) => p.logs(),
        }
    }
}

/// The paths of the system that this machine runs.
pub fn paths(host: Host, linux: LinuxPaths, windows: WindowsPaths) -> (r: HostPaths)
    ensures
        r == (match host {
            Host::Linux => HostPaths::Linux(linux),
            Host::Windows => HostPaths::Windows(windows),
        }),
{
    match host {
        Host::Linux => HostPaths::Linux(linux),
        Host::Windows => HostPaths::Windows(windows),
    }
}

/// A directory that is configured for downloads is absolute whenever the home
/// directory is: received files never land in a working directory.
pub proof fn lemma_downloads_are_absolute(p: LinuxPaths)
    requires
        p.home is Some,
        p.home->0@.len() > 0,
        p.home->0@[0] == '/',
    ensures
        p.downloads_dir() is Some,
        p.downloads_dir()->0.len() > 0,
        p.downloads_dir()->0[0] == '/',
{
    reveal_strlit("Downloads");
    let h = p.home->0@;
    match configured_downloads(h, text::maybe(p.xdg_download_dir), text::maybe(p.user_dirs)) {
        Some(q) => {
            if p.xdg_download_dir is Some {
                lemma_expanded_absolute(p.xdg_download_dir->0@, h);
            }
            if p.user_dirs is Some {
                match named_dir(text::lines_of(p.user_dirs->0@), "XDG_DOWNLOAD_DIR"@) {
                    Some(v) => {
                        lemma_expanded_absolute(v, h);
                    },
                    None => {},
                }
            }
        },
        None => {},
    }
}

proof fn lemma_expanded_absolute(raw: Seq<char>, home: Seq<char>)
    requires
        home.len() > 0,
        home[0] == '/',
    ensures
        expanded(raw, home) is Some ==> expanded(raw, home)->0.len() > 0 && expanded(raw, home)->0[0]
            == '/',
{
}

/// A line that assigns a directory to a key names it, with quotes around it or without; a
/// comment, and a line for another key, do not.
pub proof fn lemma_line_assigns_a_directory(key: Seq<char>, dir: Seq<char>, other: Seq<char>)
    requires
        key.len() > 0 && dir.len() > 0,
        forall|i: int|
            0 <= i < key.len() ==> !text::is_white(#[trigger] key[i]) && key[i] != '=' && key[i] != '#',
        !text::is_white(dir[0]) && !text::is_white(dir.last()),
        dir[0] != '"' && dir[0] != '\'',
        other != key,
    ensures
        assigned(key + seq!['='] + (seq!['"'] + dir + seq!['"']), key) == Some(dir),
        assigned(key + seq!['='] + dir, key) == Some(dir),
        assigned(key + seq!['=', '"', '"'], key) == Some(Seq::<char>::empty()),
        assigned(seq!['#'] + (key + seq!['='] + dir), key) is None,
        assigned(key + seq!['='] + dir, other) is None,
{
    lemma_assignment(key, seq!['"'] + dir + seq!['"']);
    lemma_assignment(key, dir);
    lemma_assignment(key, seq!['"', '"']);
    assert(key + seq!['='] + seq!['"', '"'] =~= key + seq!['=', '"', '"']);
    assert((seq!['"'] + dir + seq!['"']).subrange(1, (dir.len() + 1) as int) =~= dir);
    assert(seq!['"', '"'].subrange(1, 1) =~= Seq::<char>::empty());
    let comment = seq!['#'] + (key + seq!['='] + dir);
    assert(comment.last() == dir.last());
    let none = Seq::<char>::empty();
    assert(none + comment + none =~= comment);
    text::lemma_trimmed_core(none, comment, none);
}

proof fn lemma_assignment(key: Seq<char>, value: Seq<char>)
    requires
        key.len() > 0 && value.len() > 0,
        forall|i: int|
            0 <= i < key.len() ==> !text::is_white(#[trigger] key[i]) && key[i] != '=' && key[i] != '#',
        !text::is_white(value[0]) && !text::is_white(value.last()),
    ensures
        assigned(key + seq!['='] + value, key) == Some(unquoted(value)),
        forall|other: Seq<char>|
            other != key ==> #[trigger] assigned(key + seq!['='] + value, other) is None,
{
    let line = key + seq!['='] + value;
    let none = Seq::<char>::empty();
    assert(line[0] == key[0]);
    assert(line.last() == value.last());
    assert(none + line + none =~= line);
    text::lemma_trimmed_core(none, line, none);
    let n = key.len() as int;
    assert forall|i: int| 0 <= i < n implies #[trigger] line[i] != '=' by {
        assert(line[i] == key[i]);
    }
    assert(line[n] == '=');
    text::lemma_first_of_is(line, '=', n);
    assert(line.take(n) =~= key);
    assert(line.skip(n + 1) =~= value);
    assert(none + key + none =~= key);
    assert(none + value + none =~= value);
    assert(!text::is_white(key[0]) && !text::is_white(key[n - 1]));
    text::lemma_trimmed_core(none, key, none);
    text::lemma_trimmed_core(none, value, none);
}

/// Of several lines the last assignment counts, also when it takes the directory away.
pub proof fn lemma_last_assignment_counts(lines: Seq<Seq<char>>, line: Seq<char>, key: Seq<char>)
    ensures
        assigned(line, key) is None ==> named_dir(lines.push(line), key) == named_dir(lines, key),
        assigned(line, key) is Some && assigned(line, key)->0.len() > 0 ==> named_dir(
            lines.push(line),
            key,
        ) == assigned(line, key),
        assigned(line, key) is Some && assigned(line, key)->0.len() == 0 ==> named_dir(
            lines.push(line),
            key,
        ) is None,
        named_dir(Seq::empty(), key) is None,
{
    assert(lines.push(line).drop_last() =~= lines);
}

/// The three signs of the home directory stand for it; an absolute path stands for itself; and
/// a relative one, or the home directory of somebody else, for nothing.
pub proof fn lemma_home_is_put_in(home: Seq<char>, path: Seq<char>)
    requires
        home.len() > 0 && home.last() != '/',
        path.len() > 0 && path[0] != '/' && !text::is_white(path[0]) && !text::is_white(path.last()),
    ensures
        expanded("$HOME"@ + (seq!['/'] + path), home) == Some(home + seq!['/'] + path),
        expanded("${HOME}"@ + (seq!['/'] + path), home) == Some(home + seq!['/'] + path),
        expanded("~"@ + (seq!['/'] + path), home) == Some(home + seq!['/'] + path),
        expanded("$HOME"@, home) == Some(home),
        expanded("~"@, home) == Some(home),
        expanded("~"@ + path, home) is None,
        expanded(seq!['/'] + path, home) == Some(seq!['/'] + path),
        path[0] != '$' && path[0] != '~' ==> expanded(path, home) is None,
{
    reveal_strlit("$HOME");
    reveal_strlit("${HOME}");
    reveal_strlit("~");
    let tail = seq!['/'] + path;
    assert(tail.drop_first() =~= path);
    assert(without_slashes(tail) == path) by {
        reveal_with_fuel(without_slashes, 2);
    }
    assert(without_slashes(Seq::<char>::empty()).len() == 0);
    assert(home.push('/') =~= home + seq!['/']);
    lemma_signs(tail);
    lemma_bare("$HOME"@ + tail);
    lemma_bare("${HOME}"@ + tail);
    lemma_bare("~"@ + tail);
    lemma_bare("$HOME"@);
    lemma_bare("~"@);
    lemma_bare("~"@ + path);
    lemma_bare(tail);
    lemma_bare(path);
    lemma_signs(Seq::empty());
    assert("$HOME"@ + Seq::<char>::empty() =~= "$HOME"@);
    assert("~"@ + Seq::<char>::empty() =~= "~"@);
    let other = "~"@ + path;
    assert(other.skip(1) =~= path);
    assert(other[0] == '~');
    lemma_no_sign(other);
    lemma_no_sign(tail);
    lemma_no_sign(path);
}

proof fn lemma_bare(s: Seq<char>)
    requires
        s.len() > 0 && !text::is_white(s[0]) && !text::is_white(s.last()),
    ensures
        text::trimmed(s) == s,
{
    let none = Seq::<char>::empty();
    assert(none + s + none =~= s);
    text::lemma_trimmed_core(none, s, none);
}

proof fn lemma_signs(tail: Seq<char>)
    requires
        tail.len() == 0 || tail[0] == '/',
    ensures
        behind_home("$HOME"@ + tail) == Some(tail),
        behind_home("${HOME}"@ + tail) == Some(tail),
        behind_home("~"@ + tail) == Some(tail),
{
    reveal_strlit("$HOME");
    reveal_strlit("${HOME}");
    reveal_strlit("~");
    let a = "$HOME"@ + tail;
    let b = "${HOME}"@ + tail;
    let c = "~"@ + tail;
    assert(a.subrange(0, 5) =~= "$HOME"@);
    assert(a.skip(5) =~= tail);
    assert(b.subrange(0, 7) =~= "${HOME}"@);
    assert(b.skip(7) =~= tail);
    assert(c.subrange(0, 1) =~= "~"@);
    assert(c.skip(1) =~= tail);
    if text::has_prefix(b, "$HOME"@) {
        assert(b.subrange(0, 5)[1] == b[1]);
        assert("$HOME"@[1] == 'H');
    }
    lemma_no_sign(c);
}

proof fn lemma_no_sign(s: Seq<char>)
    requires
        s.len() > 0,
    ensures
        s[0] != '$' ==> behind_sign(s, "$HOME"@) is None && behind_sign(s, "${HOME}"@) is None,
        s[0] != '~' ==> behind_sign(s, "~"@) is None,
{
    reveal_strlit("$HOME");
    reveal_strlit("${HOME}");
    reveal_strlit("~");
    if text::has_prefix(s, "$HOME"@) {
        assert(s.subrange(0, 5)[0] == s[0]);
    }
    if text::has_prefix(s, "${HOME}"@) {
        assert(s.subrange(0, 7)[0] == s[0]);
    }
    if text::has_prefix(s, "~"@) {
        assert(s.subrange(0, 1)[0] == s[0]);
    }
}

/// Where things are kept on Linux: below what the environment says where that is absolute, and
/// else below the home directory; without a home directory nowhere. Logs lie with the caches.
pub proof fn lemma_directories_on_linux(p: LinuxPaths)
    requires
        p.home is Some ==> p.home->0@.len() > 0 && p.home->0@.last() != '/',
        p.xdg_config_home is Some ==> p.xdg_config_home->0@.len() > 0 && p.xdg_config_home->0@.last()
            != '/',
        p.xdg_cache_home is Some ==> p.xdg_cache_home->0@.len() > 0 && p.xdg_cache_home->0@.last()
            != '/',
    ensures
        p.home is None ==> p.downloads_dir() is None && p.config_dir() is None && p.cache_dir() is None
            && p.logs_dir() is None,
        p.home is Some ==> {
            let h = p.home->0@;
            let by_config = p.xdg_config_home is Some && p.xdg_config_home->0@[0] == '/';
            let by_cache = p.xdg_cache_home is Some && p.xdg_cache_home->0@[0] == '/';
            &&& by_config ==> p.config_dir() == Some(p.xdg_config_home->0@ + seq!['/'] + "vortex"@)
            &&& !by_config ==> p.config_dir() == Some(h + seq!['/'] + ".config"@ + seq!['/'] + "vortex"@)
            &&& by_cache ==> p.cache_dir() == Some(p.xdg_cache_home->0@ + seq!['/'] + "vortex"@)
            &&& !by_cache ==> p.cache_dir() == Some(h + seq!['/'] + ".cache"@ + seq!['/'] + "vortex"@)
            &&& p.logs_dir() == p.cache_dir()
            &&& p.xdg_download_dir is None && p.user_dirs is None ==> p.downloads_dir() == Some(
                h + seq!['/'] + "Downloads"@,
            )
            &&& p.xdg_download_dir is Some && expanded(p.xdg_download_dir->0@, h) is Some
                ==> p.downloads_dir() == expanded(p.xdg_download_dir->0@, h)
            &&& p.xdg_download_dir is None && p.user_dirs is Some ==> match named_dir(
                text::lines_of(p.user_dirs->0@),
                "XDG_DOWNLOAD_DIR"@,
            ) {
                Some(d) => expanded(d, h) is Some ==> p.downloads_dir() == expanded(d, h),
                None => p.downloads_dir() == Some(h + seq!['/'] + "Downloads"@),
            }
        },
{
    reveal_strlit(".config");
    reveal_strlit(".cache");
    if p.home is Some {
        let h = p.home->0@;
        assert(h.push('/') =~= h + seq!['/']);
        assert((h + seq!['/'] + ".config"@).last() == ".config"@.last());
        assert((h + seq!['/'] + ".cache"@).last() == ".cache"@.last());
        assert((h + seq!['/'] + ".config"@).push('/') =~= h + seq!['/'] + ".config"@ + seq!['/']);
        assert((h + seq!['/'] + ".cache"@).push('/') =~= h + seq!['/'] + ".cache"@ + seq!['/']);
    }
}

/// Where things are kept on Windows: settings with what follows the user, caches and logs with
/// what stays on the machine, and downloads where the system says.
pub proof fn lemma_directories_on_windows(p: WindowsPaths)
    requires
        p.roaming is Some ==> p.roaming->0@.len() > 0 && p.roaming->0@.last() != '\\',
        p.local is Some ==> p.local->0@.len() > 0 && p.local->0@.last() != '\\',
    ensures
        p.downloads_dir() == text::maybe(p.downloads),
        p.roaming is Some ==> p.config_dir() == Some(p.roaming->0@ + seq!['\\'] + "Vortex"@),
        p.roaming is None ==> p.config_dir() is None,
        p.local is Some ==> p.logs_dir() == Some(p.local->0@ + seq!['\\'] + "Vortex"@) && p.cache_dir()
            == Some(p.local->0@ + seq!['\\'] + "Vortex"@ + seq!['\\'] + "Cache"@),
        p.local is None ==> p.logs_dir() is None && p.cache_dir() is None,
{
    reveal_strlit("Vortex");
    if p.local is Some {
        let l = p.local->0@;
        let v = l + seq!['\\'] + "Vortex"@;
        assert(l.push('\\') =~= l + seq!['\\']);
        assert(v.last() == "Vortex"@.last());
        assert(v.push('\\') =~= v + seq!['\\']);
    }
}

/// The directories are those of the system that runs.
pub proof fn lemma_paths_of_the_host(host: Host, linux: LinuxPaths, windows: WindowsPaths, r: HostPaths)
    requires
        call_ensures(paths, (host, linux, windows), r),
    ensures
        host is Linux ==> r.downloads_dir() == linux.downloads_dir() && r.config_dir()
            == linux.config_dir() && r.cache_dir() == linux.cache_dir() && r.logs_dir()
            == linux.logs_dir(),
        host is Windows ==> r.downloads_dir() == windows.downloads_dir() && r.config_dir()
            == windows.config_dir() && r.cache_dir() == windows.cache_dir() && r.logs_dir()
            == windows.logs_dir(),
{
}

/// Where the user's directories are written down on Linux.
pub proof fn lemma_file_of_the_directories(p: &LinuxPaths, r: Option<String>)
    requires
        call_ensures(LinuxPaths::user_dirs_file, (p,), r),
        p.home is Some ==> p.home->0@.len() > 0 && p.home->0@.last() != '/',
        p.xdg_config_home is None,
    ensures
        p.home is None ==> r is None,
        p.home is Some ==> r is Some && r->0@ == p.home->0@ + seq!['/'] + ".config"@ + seq!['/']
            + "user-dirs.dirs"@,
{
    reveal_strlit(".config");
    if p.home is Some {
        let h = p.home->0@;
        let c = h + seq!['/'] + ".config"@;
        assert(h.push('/') =~= h + seq!['/']);
        assert(c.last() == ".config"@.last());
        assert(c.push('/') =~= c + seq!['/']);
    }
}

} // verus!
