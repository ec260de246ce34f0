//! The phone's files from the command line.

use vstd::prelude::*;

use crate::text;
use crate::text::{chars_of, decimal_text, same_text, text_of};

verus! {

pub const NOENT: i32 = 2;

pub const IO: i32 = 5;

pub const BADF: i32 = 9;

pub const ACCES: i32 = 13;

pub const ISDIR: i32 = 21;

pub const INVAL: i32 = 22;

pub const ROFS: i32 = 30;

pub const NOTSUP: i32 = 95;

/// The words for an error number.
pub open spec fn code_words(c: i32) -> Seq<char> {
    if c == NOENT {
        "no such file"@
    } else if c == ACCES {
        "not permitted"@
    } else if c == IO {
        "I/O error"@
    } else if c == BADF {
        "bad handle"@
    } else if c == INVAL {
        "invalid request"@
    } else if c == NOTSUP {
        "not supported"@
    } else if c == ISDIR {
        "is a directory"@
    } else if c == ROFS {
        "read-only"@
    } else {
        "unknown error"@
    }
}

/// The words for an error number.
pub fn code_name(c: i32) -> (r: String)
    ensures
        r@ == code_words(c),
{
    if c == NOENT {
        "no such file".to_string()
    } else if c == ACCES {
        "not permitted".to_string()
    } else if c == IO {
        "I/O error".to_string()
    } else if c == BADF {
        "bad handle".to_string()
    } else if c == INVAL {
        "invalid request".to_string()
    } else if c == NOTSUP {
        "not supported".to_string()
    } else if c == ISDIR {
        "is a directory".to_string()
    } else if c == ROFS {
        "read-only".to_string()
    } else {
        "unknown error".to_string()
    }
}

/// The pages after which a listing that never ends is given up.
pub const MAX_PAGES: u32 = 10_000;

/// A listing that comes page by page.
#[derive(Clone, Copy)]
pub struct Listing {
    /// Where the next page begins.
    pub cursor: u32,
    /// The pages before this one.
    pub page: u32,
    /// The entries so far.
    pub total: usize,
}

/// What follows a page.
#[derive(Debug, Clone, Copy, PartialEq, Eq, Structural)]
pub enum LsStep {
    /// Ask for the page that begins here.
    More { cursor: u32 },
    /// The peer goes on for ever: it ends here.
    GaveUp { pages: u32 },
    Done,
}

/// What follows a page with so many entries, and with the beginning of the next
/// one, if there is one.
pub open spec fn page_step(l: Listing, entries: usize, next: Option<u32>) -> (Listing, LsStep) {
    let total = (l.total + entries) as usize;
    match next {
        None => (Listing { total, ..l }, LsStep::Done),
        Some(cursor) => {
            let page = (l.page + 1) as u32;
            (
                Listing { cursor, page, total },
                if page > MAX_PAGES {
                    LsStep::GaveUp { pages: page }
                } else {
                    LsStep::More { cursor }
                },
            )
        },
    }
}

impl Listing {
    /// Nothing was listed yet.
    pub fn new() -> (r: Self)
        ensures
            r == (Listing { cursor: 0, page: 0, total: 0 }),
    {
        Listing { cursor: 0, page: 0, total: 0 }
    }

    /// A page arrived.
    pub fn on_page(&mut self, entries: usize, next: Option<u32>) -> (r: LsStep)
        requires
            old(self).page <= MAX_PAGES,
            old(self).total + entries <= usize::MAX,
        ensures
            (*final(self), r) == page_step(*old(self), entries, next),
    {
        self.total = self.total + entries;
        match next {
            None => LsStep::Done,
            Some(cursor) => {
                self.page = self.page + 1;
                self.cursor = cursor;
                if self.page > MAX_PAGES {
                    LsStep::GaveUp { pages: self.page }
                } else {
                    LsStep::More { cursor }
                }
            },
        }
    }

    /// The number of pages that were listed.
    pub fn pages(&self) -> (r: u32)
        requires
            self.page <= MAX_PAGES + 1,
        ensures
            r == self.page + 1,
    {
        self.page + 1
    }
}

/// The listing after a run of pages that all have another one behind them.
pub open spec fn listed(cursors: Seq<u32>, entries: Seq<usize>) -> (Listing, LsStep)
    decreases cursors.len(),
{
    if cursors.len() == 0 {
        (Listing { cursor: 0, page: 0, total: 0 }, LsStep::More { cursor: 0 })
    } else {
        page_step(
            listed(cursors.drop_last(), entries.drop_last()).0,
            entries.last(),
            Some(cursors.last()),
        )
    }
}

/// A listing ends, whatever the peer answers: a peer that always has another page
/// is given up after ten thousand.
pub proof fn lemma_listing_ends(cursors: Seq<u32>, entries: Seq<usize>)
    requires
        cursors.len() == entries.len(),
        cursors.len() <= MAX_PAGES + 1,
    ensures
        listed(cursors, entries).0.page == cursors.len(),
        listed(cursors, entries).1 is GaveUp <==> cursors.len() == MAX_PAGES + 1,
    decreases cursors.len(),
{
    if cursors.len() > 0 {
        lemma_listing_ends(cursors.drop_last(), entries.drop_last());
    }
}

/// `s` with spaces before it, to ten characters.
pub open spec fn right_aligned(s: Seq<char>) -> Seq<char> {
    if s.len() >= 10 {
        s
    } else {
        Seq::new((10 - s.len()) as nat, |i: int| ' ') + s
    }
}

/// One entry of a directory.
#[derive(Debug)]
pub struct DirEntry {
    pub name: String,
    pub path: String,
    pub is_dir: bool,
    pub size: u64,
}

/// The line of an entry.
pub open spec fn entry_text(e: DirEntry) -> Seq<char> {
    "fs-cli: "@ + (if e.is_dir {
        "dir "@
    } else {
        "file"@
    }) + "\t"@ + right_aligned(text::decimal(e.size as nat)) + "\t"@ + e.name@ + "\t"@ + e.path@
}

/// Puts spaces before `s`, to ten characters.
fn align_right(s: &str) -> (r: String)
    ensures
        r@ == right_aligned(s@),
{
    let chars = chars_of(s);
    let mut v: Vec<char> = Vec::new();
    while v.len() + chars.len() < 10
        invariant
            chars@ == s@,
            v@.len() + s@.len() <= 10 || v@.len() == 0,
            v@.len() <= 10,
            forall|i: int| 0 <= i < v@.len() ==> v@[i] == ' ',
            chars@.len() <= usize::MAX - 10 || v@.len() == 0,
        decreases 10 - v.len(),
    {
        v.push(' ');
    }
    let mut i: usize = 0;
    let ghost front = v@;
    while i < chars.len()
        invariant
            i <= chars@.len(),
            chars@ == s@,
            v@ == front + s@.take(i as int),
        decreases chars.len() - i,
    {
        v.push(chars[i]);
        i += 1;
        assert(v@ =~= front + s@.take(i as int));
    }
    assert(v@ =~= right_aligned(s@));
    text_of(&v)
}

/// The line of an entry.
pub fn entry_line(e: &DirEntry) -> (r: String)
    ensures
        r@ == entry_text(*e),
{
    let mut m = "fs-cli: ".to_string();
    m.append(
        if e.is_dir {
            "dir "
        } else {
            "file"
        },
    );
    m.append("\t");
    m.append(align_right(decimal_text(e.size).as_str()).as_str());
    m.append("\t");
    m.append(e.name.as_str());
    m.append("\t");
    m.append(e.path.as_str());
    m
}

/// What is asked for.
#[derive(Debug, PartialEq, Eq)]
pub enum FsCommand<S = String> {
    Unmount,
    Mount,
    /// List a directory; the empty path is the root.
    List(S),
    /// Describe a file; without a path there is nothing to describe.
    Stat(Option<S>),
    /// Fetch a file from the first path to the second.
    Get(Option<(S, S)>),
    /// Nothing of this kind.
    Other,
}

impl View for FsCommand {
    type V = FsCommand<Seq<char>>;

    open spec fn view(&self) -> FsCommand<Seq<char>> {
        match self {
            FsCommand::Unmount => FsCommand::Unmount,
            FsCommand::Mount => FsCommand::Mount,
            FsCommand::List(p) => FsCommand::List(p@),
            FsCommand::Stat(p) => FsCommand::Stat(text::maybe(*p)),
            FsCommand::Get(p) => FsCommand::Get(
                match p {
                    Some((a, b)) => Some((a@, b@)),
                    None => None,
                },
            ),
            FsCommand::Other => FsCommand::Other,
        }
    }
}

/// The place of the first `w`, or the number of words.
pub open spec fn flag_at(argv: Seq<Seq<char>>, w: Seq<char>) -> int
    decreases argv.len(),
{
    if argv.len() == 0 || argv[0] == w {
        0
    } else {
        1 + flag_at(argv.drop_first(), w)
    }
}

/// What a command line asks for. Of several flags the first in this order counts.
pub open spec fn asked_for(argv: Seq<Seq<char>>) -> FsCommand<Seq<char>> {
    let n = argv.len();
    let ls = flag_at(argv, "--fs-ls"@);
    let stat = flag_at(argv, "--fs-stat"@);
    let get = flag_at(argv, "--fs-get"@);
    if argv.contains("--fs-umount"@) {
        FsCommand::Unmount
    } else if argv.contains("--fs-mount"@) {
        FsCommand::Mount
    } else if ls < n {
        FsCommand::List(
            if ls + 1 < n {
                argv[ls + 1]
            } else {
                ""@
            },
        )
    } else if stat < n {
        FsCommand::Stat(
            if stat + 1 < n {
                Some(argv[stat + 1])
            } else {
                None
            },
        )
    } else if get < n {
        FsCommand::Get(
            if get + 2 < n {
                Some((argv[get + 1], argv[get + 2]))
            } else {
                None
            },
        )
    } else {
        FsCommand::Other
    }
}

/// The place of the first `w`, or the number of words.
fn find_flag(argv: &Vec<String>, w: &str) -> (r: usize)
    ensures
        r <= argv@.len(),
        r < argv@.len() <==> text::texts(argv@).contains(w@),
        r == flag_at(text::texts(argv@), w@),
{
    let ghost words = text::texts(argv@);
    let mut i: usize = 0;
    assert(words.skip(0) =~= words);
    while i < argv.len()
        invariant
            i <= argv@.len(),
            words == text::texts(argv@),
            forall|j: int| 0 <= j < i ==> words[j] != w@,
            flag_at(words, w@) == i + flag_at(words.skip(i as int), w@),
        decreases argv.len() - i,
    {
        assert(words.skip(i as int)[0] == argv@[i as int]@);
        assert(words.skip(i as int).drop_first() =~= words.skip(i + 1));
        if same_text(argv[i].as_str(), w) {
            assert(words[i as int] == w@);
            return i;
        }
        i += 1;
    }
    i
}

/// What a command line asks for.
pub fn dispatch(argv: &Vec<String>) -> (r: FsCommand)
    ensures
        r@ == asked_for(text::texts(argv@)),
{
    let n: usize = argv.len();
    if find_flag(argv, "--fs-umount") < n {
        return FsCommand::Unmount;
    }
    if find_flag(argv, "--fs-mount") < n {
        return FsCommand::Mount;
    }
    let ls: usize = find_flag(argv, "--fs-ls");
    if ls < n {
        return FsCommand::List(
            if n - ls > 1 {
                argv[ls + 1].as_str().to_string()
            } else {
                "".to_string()
            },
        );
    }
    let stat: usize = find_flag(argv, "--fs-stat");
    if stat < n {
        return FsCommand::Stat(
            if n - stat > 1 {
                Some(argv[stat + 1].as_str().to_string())
            } else {
                None
            },
        );
    }
    let get: usize = find_flag(argv, "--fs-get");
    if get < n {
        return FsCommand::Get(
            if n - get > 2 {
                Some(
                    (argv[get + 1].as_str().to_string(), argv[get + 2].as_str().to_string()),
                )
            } else {
                None
            },
        );
    }
    FsCommand::Other
}

/// Every error number has its words.
pub proof fn lemma_words_of_the_errors(c: i32)
    ensures
        code_words(2) == "no such file"@,
        code_words(5) == "I/O error"@,
        code_words(9) == "bad handle"@,
        code_words(13) == "not permitted"@,
        code_words(21) == "is a directory"@,
        code_words(22) == "invalid request"@,
        code_words(30) == "read-only"@,
        code_words(95) == "not supported"@,
        c != 2 && c != 5 && c != 9 && c != 13 && c != 21 && c != 22 && c != 30 && c != 95
            ==> code_words(c) == "unknown error"@,
{
}

/// A page brings its entries, and the next one is asked for where it begins, as long as there
/// is one and there were no more than ten thousand.
pub proof fn lemma_pages_are_added_up(l: &mut Listing, entries: usize, next: Option<u32>, r: LsStep)
    requires
        old(l).page <= 10_000,
        old(l).total + entries <= usize::MAX,
        call_ensures(Listing::on_page, (l, entries, next), r),
    ensures
        final(l).total == old(l).total + entries,
        next is None ==> r is Done && final(l).page == old(l).page,
        next is Some ==> final(l).page == old(l).page + 1 && final(l).cursor == next->0,
        next is Some && old(l).page < 10_000 ==> r == (LsStep::More { cursor: next->0 }),
        next is Some && old(l).page == 10_000 ==> r == (LsStep::GaveUp { pages: 10_001 }),
{
}

/// The line of an entry says whether it is a directory, how large it is, and what it is called
/// and where it lies; the size is aligned to the right in ten places, and is never cut.
pub proof fn lemma_line_of_an_entry(e: DirEntry)
    ensures
        ({
            let size = text::decimal(e.size as nat);
            let width: int = if size.len() > 10 {
                size.len() as int
            } else {
                10
            };
            let line = entry_text(e);
            &&& e.is_dir ==> line.take(13) == "fs-cli: dir \t"@
            &&& !e.is_dir ==> line.take(13) == "fs-cli: file\t"@
            &&& line.subrange(13 + width - size.len(), 13 + width) == size
            &&& forall|i: int| 13 <= i < 13 + width - size.len() ==> #[trigger] line[i] == ' '
            &&& line.skip(13 + width) == "\t"@ + e.name@ + "\t"@ + e.path@
        }),
{
    reveal_strlit("fs-cli: ");
    reveal_strlit("dir ");
    reveal_strlit("file");
    reveal_strlit("\t");
    reveal_strlit("fs-cli: dir \t");
    reveal_strlit("fs-cli: file\t");
    let size = text::decimal(e.size as nat);
    let column = right_aligned(size);
    let kind = if e.is_dir {
        "dir "@
    } else {
        "file"@
    };
    let line = entry_text(e);
    let n = column.len() as int;
    assert(line =~= "fs-cli: "@ + kind + "\t"@ + column + ("\t"@ + e.name@ + "\t"@ + e.path@));
    assert(line.skip(13 + n) =~= "\t"@ + e.name@ + "\t"@ + e.path@);
    assert(line.take(13) =~= "fs-cli: "@ + kind + "\t"@);
    if e.is_dir {
        assert(line.take(13) =~= "fs-cli: dir \t"@);
    } else {
        assert(line.take(13) =~= "fs-cli: file\t"@);
    }
    assert forall|i: int| 0 <= i < n implies #[trigger] line[13 + i] == column[i] by {}
    assert(line.subrange(13 + n - size.len(), 13 + n) =~= size);
    assert forall|i: int| 13 <= i < 13 + n - size.len() implies #[trigger] line[i] == ' ' by {
        assert(line[13 + (i - 13)] == column[i - 13]);
    }
}

proof fn lemma_flag_is_at(argv: Seq<Seq<char>>, w: Seq<char>, i: int)
    requires
        0 <= i <= argv.len(),
        forall|j: int| 0 <= j < i ==> #[trigger] argv[j] != w,
        i < argv.len() ==> argv[i] == w,
    ensures
        flag_at(argv, w) == i,
    decreases argv.len(),
{
    if i > 0 {
        assert(argv[0] != w);
        let rest = argv.drop_first();
        assert forall|j: int| 0 <= j < i - 1 implies #[trigger] rest[j] != w by {
            assert(rest[j] == argv[j + 1]);
        }
        lemma_flag_is_at(rest, w, i - 1);
    }
}

/// What a command line asks for, in full: the two flags of the mount come before all others,
/// and a listing, a description and a fetch take the words behind their flag.
pub proof fn lemma_what_is_asked_of_the_files(argv: Seq<Seq<char>>, i: int)
    ensures
        argv.contains("--fs-umount"@) ==> asked_for(argv) is Unmount,
        argv.contains("--fs-mount"@) && !argv.contains("--fs-umount"@) ==> asked_for(argv) is Mount,
        !argv.contains("--fs-umount"@) && !argv.contains("--fs-mount"@) && 0 <= i < argv.len() ==> {
            let first = |w: Seq<char>|
                argv[i] == w && forall|j: int| 0 <= j < i ==> #[trigger] argv[j] != w;
            let none = |w: Seq<char>| !argv.contains(w);
            &&& first("--fs-ls"@) && i + 1 < argv.len() ==> asked_for(argv) == FsCommand::List(
                argv[i + 1],
            )
            &&& first("--fs-ls"@) && i + 1 == argv.len() ==> asked_for(argv) == FsCommand::List(""@)
            &&& none("--fs-ls"@) && first("--fs-stat"@) && i + 1 < argv.len() ==> asked_for(argv)
                == FsCommand::Stat(Some(argv[i + 1]))
            &&& none("--fs-ls"@) && first("--fs-stat"@) && i + 1 == argv.len() ==> asked_for(argv)
                == FsCommand::Stat(None::<Seq<char>>)
            &&& none("--fs-ls"@) && none("--fs-stat"@) && first("--fs-get"@) && i + 2 < argv.len()
                ==> asked_for(argv) == FsCommand::Get(Some((argv[i + 1], argv[i + 2])))
            &&& none("--fs-ls"@) && none("--fs-stat"@) && first("--fs-get"@) && i + 2 >= argv.len()
                ==> asked_for(argv) == FsCommand::Get(None::<(Seq<char>, Seq<char>)>)
        },
{
    let flags = seq!["--fs-ls"@, "--fs-stat"@, "--fs-get"@];
    assert forall|k: int| 0 <= k < 3 implies {
        let w = #[trigger] flags[k];
        &&& 0 <= i < argv.len() && argv[i] == w && (forall|j: int|
            0 <= j < i ==> #[trigger] argv[j] != w) ==> flag_at(argv, w) == i
        &&& !argv.contains(w) ==> flag_at(argv, w) == argv.len()
    } by {
        let w = flags[k];
        if 0 <= i < argv.len() && argv[i] == w && (forall|j: int| 0 <= j < i ==> #[trigger] argv[j] != w) {
            lemma_flag_is_at(argv, w, i);
        }
        if !argv.contains(w) {
            lemma_flag_is_at(argv, w, argv.len() as int);
        }
    }
    assert(flags[0] == "--fs-ls"@ && flags[1] == "--fs-stat"@ && flags[2] == "--fs-get"@);
}

/// The number of pages counts the last one too.
pub proof fn lemma_pages_are_counted(l: &Listing, r: u32, fresh: Listing)
    requires
        call_ensures(Listing::pages, (l,), r),
        call_ensures(Listing::new, (), fresh),
    ensures
        r == l.page + 1,
        fresh.page == 0 && fresh.cursor == 0 && fresh.total == 0,
{
}

/// A command line without any of the flags asks for nothing of the files.
pub proof fn lemma_nothing_is_asked_of_the_files(argv: Seq<Seq<char>>)
    requires
        !argv.contains("--fs-umount"@) && !argv.contains("--fs-mount"@) && !argv.contains("--fs-ls"@)
            && !argv.contains("--fs-stat"@) && !argv.contains("--fs-get"@),
    ensures
        asked_for(argv) is Other,
{
    lemma_flag_is_at(argv, "--fs-ls"@, argv.len() as int);
    lemma_flag_is_at(argv, "--fs-stat"@, argv.len() as int);
    lemma_flag_is_at(argv, "--fs-get"@, argv.len() as int);
}

} // verus!
