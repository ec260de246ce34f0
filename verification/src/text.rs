//! Text as a sequence of characters: the few string operations that the rest
//! of the library is written with, each with a mathematical description.

use vstd::prelude::*;
use vstd::utf8;

verus! {

/// What an optional text says.
pub open spec fn maybe(s: Option<String>) -> Option<Seq<char>> {
    match s {
        Some(t) => Some(t@),
        None => None,
    }
}

/// The Unicode `White_Space` property, which is what trimming removes.
pub open spec fn is_white(c: char) -> bool {
    ||| '\u{9}' <= c <= '\u{d}'
    ||| c == '\u{20}'
    ||| c == '\u{85}'
    ||| c == '\u{a0}'
    ||| c == '\u{1680}'
    ||| '\u{2000}' <= c <= '\u{200a}'
    ||| c == '\u{2028}'
    ||| c == '\u{2029}'
    ||| c == '\u{202f}'
    ||| c == '\u{205f}'
    ||| c == '\u{3000}'
}

/// `s` without its leading white space.
pub open spec fn skip_white(s: Seq<char>) -> Seq<char>
    decreases s.len(),
{
    if s.len() > 0 && is_white(s[0]) {
        skip_white(s.drop_first())
    } else {
        s
    }
}

/// `s` without its trailing white space.
pub open spec fn drop_white(s: Seq<char>) -> Seq<char>
    decreases s.len(),
{
    if s.len() > 0 && is_white(s.last()) {
        drop_white(s.drop_last())
    } else {
        s
    }
}

/// `s` without white space at either end.
pub open spec fn trimmed(s: Seq<char>) -> Seq<char> {
    drop_white(skip_white(s))
}

/// `pat` stands in `s` at position `i`.
pub open spec fn occurs_at(s: Seq<char>, pat: Seq<char>, i: int) -> bool {
    0 <= i && i + pat.len() <= s.len() && s.subrange(i, i + pat.len()) == pat
}

/// `pat` stands somewhere in `s`.
pub open spec fn contains_text(s: Seq<char>, pat: Seq<char>) -> bool {
    exists|i: int| #[trigger] occurs_at(s, pat, i)
}

/// `s` begins with `pat`.
pub open spec fn has_prefix(s: Seq<char>, pat: Seq<char>) -> bool {
    occurs_at(s, pat, 0)
}

/// `s` ends with `pat`.
pub open spec fn has_suffix(s: Seq<char>, pat: Seq<char>) -> bool {
    occurs_at(s, pat, s.len() - pat.len())
}

/// The position of the first `c` in `s`, or the length of `s` when there is none.
pub open spec fn first_of(s: Seq<char>, c: char) -> int
    decreases s.len(),
{
    if s.len() == 0 || s[0] == c {
        0
    } else {
        1 + first_of(s.drop_first(), c)
    }
}

/// A line without the carriage return that ended it.
pub open spec fn without_cr(s: Seq<char>) -> Seq<char> {
    if s.len() > 0 && s.last() == '\r' {
        s.drop_last()
    } else {
        s
    }
}

/// The lines of a text: pieces ended by a line feed (a carriage return before
/// it belongs to the ending), and the unended rest when it is not empty.
pub open spec fn lines_of(s: Seq<char>) -> Seq<Seq<char>>
    decreases s.len(),
{
    if s.len() == 0 {
        Seq::empty()
    } else {
        let n = first_of(s, '\n');
        if 0 <= n < s.len() {
            seq![without_cr(s.take(n))] + lines_of(s.skip(n + 1))
        } else {
            seq![s]
        }
    }
}

/// `c` with the ASCII capitals made small.
pub open spec fn ascii_lower(c: char) -> char {
    if 'A' <= c <= 'Z' {
        (c as u32 + 32) as char
    } else {
        c
    }
}

/// `s` with the ASCII capitals made small.
pub open spec fn ascii_lowered(s: Seq<char>) -> Seq<char> {
    s.map_values(|c: char| ascii_lower(c))
}

/// The decimal digit `d`.
pub open spec fn digit_char(d: int) -> char {
    (48 + d) as char
}

/// `n` in decimal, without leading zeros.
pub open spec fn decimal(n: nat) -> Seq<char>
    decreases n,
{
    if n < 10 {
        seq![digit_char(n as int)]
    } else {
        decimal(n / 10).push(digit_char((n % 10) as int))
    }
}

/// `s` consists of the digits `0` to `9` alone, and of at least one.
pub open spec fn all_digits(s: Seq<char>) -> bool {
    s.len() > 0 && forall|i: int| 0 <= i < s.len() ==> '0' <= #[trigger] s[i] <= '9'
}

/// The number that a sequence of decimal digits writes.
pub open spec fn digits_value(s: Seq<char>) -> nat
    decreases s.len(),
{
    if s.len() == 0 {
        0
    } else {
        10 * digits_value(s.drop_last()) + (s.last() as u32 - 48) as nat
    }
}

/// What reading `s` as an unsigned number of at most `max` gives: one optional
/// plus sign, then digits.
pub open spec fn parsed_unsigned(s: Seq<char>, max: nat) -> Option<nat> {
    let digits = if s.len() > 0 && s[0] == '+' {
        s.drop_first()
    } else {
        s
    };
    if all_digits(digits) && digits_value(digits) <= max {
        Some(digits_value(digits))
    } else {
        None
    }
}

/// Appends one character, by `String::push`: the characters before it stay, and
/// `c` comes last.
#[verifier::external_body]
pub(crate) fn push_char(s: &mut String, c: char)
    ensures
        final(s)@ == old(s)@.push(c),
{
    s.push(c)
}

/// What `str::to_lowercase` makes of a text.
pub uninterp spec fn lowercased(s: Seq<char>) -> Seq<char>;

/// What `char::is_alphanumeric` says of a character.
pub uninterp spec fn alphanumeric(c: char) -> bool;

/// `s` in small letters, by `str::to_lowercase`. The result is a function of the
/// characters of `s` alone; which characters Unicode maps to which is not stated.
#[verifier::external_body]
pub(crate) fn to_lowercase(s: &str) -> (r: String)
    ensures
        r@ == lowercased(s@),
{
    s.to_lowercase()
}

/// Whether `c` is a letter or a number, by `char::is_alphanumeric`. The answer is
/// a function of `c` alone; which characters Unicode counts is not stated.
#[verifier::external_body]
pub(crate) fn is_alphanumeric(c: char) -> (r: bool)
    ensures
        r == alphanumeric(c),
{
    c.is_alphanumeric()
}

/// What `char::is_alphabetic` says of a character.
pub uninterp spec fn alphabetic(c: char) -> bool;

/// Whether `c` is a letter, by `char::is_alphabetic`. The answer is a property of
/// the character alone.
#[verifier::external_body]
pub(crate) fn is_alphabetic(c: char) -> (r: bool)
    ensures
        r == alphabetic(c),
{
    c.is_alphabetic()
}

/// The encoding of two texts one after the other is that of the first followed
/// by that of the second.
pub proof fn lemma_encode_concat(a: Seq<char>, b: Seq<char>)
    ensures
        utf8::encode_utf8(a + b) == utf8::encode_utf8(a) + utf8::encode_utf8(b),
    decreases a.len(),
{
    if a.len() == 0 {
        assert(a + b == b);
    } else {
        lemma_encode_concat(a.drop_first(), b);
        assert((a + b).drop_first() == a.drop_first() + b);
    }
}

/// Byte positions of the character boundaries of a text grow with the characters
/// before them, and none lies beyond the end of the text.
pub proof fn lemma_offsets_grow(s: Seq<char>, i: int, j: int)
    requires
        0 <= i <= j <= s.len(),
    ensures
        utf8::encode_utf8(s.take(i)).len() <= utf8::encode_utf8(s.take(j)).len() <= utf8::encode_utf8(s).len(),
{
    assert(s.take(j) == s.take(i) + s.subrange(i, j));
    lemma_encode_concat(s.take(i), s.subrange(i, j));
    assert(s == s.take(j) + s.skip(j));
    lemma_encode_concat(s.take(j), s.skip(j));
}

/// The number of bytes that `c` takes in UTF-8.
pub open spec fn utf8_width(c: char) -> nat {
    utf8::encode_utf8(seq![c]).len()
}

/// The number of bytes that `c` takes in UTF-8.
pub fn char_width(c: char) -> (n: usize)
    ensures
        n == utf8_width(c),
        1 <= n <= 4,
{
    proof {
        reveal_with_fuel(utf8::encode_utf8, 2);
        utf8::char_is_scalar(c);
        assert(seq![c].drop_first() == Seq::<char>::empty());
    }
    let u: u32 = c as u32;
    if u <= 0x7f {
        1
    } else if u <= 0x7ff {
        2
    } else if u <= 0xffff {
        3
    } else {
        4
    }
}

/// The byte position of every character of a text, and of its end.
pub fn char_offsets(s: &str, chars: &Vec<char>) -> (offs: Vec<usize>)
    requires
        chars@ == s@,
    ensures
        offs.len() == s@.len() + 1,
        forall|k: int| 0 <= k <= s@.len() ==> #[trigger] offs@[k] == utf8::encode_utf8(s@.take(k)).len(),
{
    let total: usize = s.as_bytes().len();
    let mut offs: Vec<usize> = Vec::new();
    let mut at: usize = 0;
    offs.push(0);
    assert(s@.take(0) == Seq::<char>::empty());
    let mut i: usize = 0;
    while i < chars.len()
        invariant
            chars@ == s@,
            total == utf8::encode_utf8(s@).len(),
            i <= chars.len(),
            offs.len() == i + 1,
            at == utf8::encode_utf8(s@.take(i as int)).len(),
            forall|k: int|
                0 <= k <= i ==> #[trigger] offs@[k] == utf8::encode_utf8(s@.take(k)).len(),
        decreases chars.len() - i,
    {
        let w: usize = char_width(chars[i]);
        proof {
            let c = s@[i as int];
            assert(s@.take(i + 1) == s@.take(i as int) + seq![c]);
            lemma_encode_concat(s@.take(i as int), seq![c]);
            lemma_offsets_grow(s@, i as int, i + 1);
        }
        at = at + w;
        offs.push(at);
        i += 1;
    }
    offs
}

/// Whether `c` is white space.
pub fn is_whitespace(c: char) -> (r: bool)
    ensures
        r == is_white(c),
{
    ('\u{9}' <= c && c <= '\u{d}') || c == '\u{20}' || c == '\u{85}' || c == '\u{a0}' || c
        == '\u{1680}' || ('\u{2000}' <= c && c <= '\u{200a}') || c == '\u{2028}' || c == '\u{2029}'
        || c == '\u{202f}' || c == '\u{205f}' || c == '\u{3000}'
}

/// The characters of `s`.
pub fn chars_of(s: &str) -> (v: Vec<char>)
    ensures
        v@ == s@,
{
    let mut v: Vec<char> = Vec::new();
    for c in it: s.chars()
        invariant
            v@ == it.seq().take(it.index()),
            it.seq() == s@,
    {
        v.push(c);
        assert(it.seq().take(it.index() + 1) == it.seq().take(it.index()).push(c));
    }
    assert(s@.take(s@.len() as int) == s@);
    v
}

/// The text that `v` spells from position `from` up to `to`.
pub fn text_between(v: &Vec<char>, from: usize, to: usize) -> (s: String)
    requires
        from <= to <= v.len(),
    ensures
        s@ == v@.subrange(from as int, to as int),
{
    let mut s = String::new();
    let mut i: usize = from;
    while i < to
        invariant
            from <= i <= to <= v.len(),
            s@ == v@.subrange(from as int, i as int),
        decreases to - i,
    {
        push_char(&mut s, v[i]);
        assert(v@.subrange(from as int, i + 1) == v@.subrange(from as int, i as int).push(v@[i as int]));
        i += 1;
    }
    s
}

/// Whether `pat` stands in `s` at position `i`.
pub fn occurs(s: &Vec<char>, pat: &Vec<char>, i: usize) -> (r: bool)
    ensures
        r == occurs_at(s@, pat@, i as int),
{
    if i > s.len() || pat.len() > s.len() - i {
        return false;
    }
    let mut j: usize = 0;
    while j < pat.len()
        invariant
            i <= s.len(),
            pat.len() <= s.len() - i,
            j <= pat.len(),
            forall|k: int| 0 <= k < j ==> s@[i + k] == pat@[k],
        decreases pat.len() - j,
    {
        if s[i + j] != pat[j] {
            assert(s@.subrange(i as int, i + pat@.len())[j as int] != pat@[j as int]);
            return false;
        }
        j += 1;
    }
    assert(s@.subrange(i as int, i + pat@.len()) == pat@);
    true
}

/// The text that `v` spells.
pub fn text_of(v: &Vec<char>) -> (s: String)
    ensures
        s@ == v@,
{
    let s = text_between(v, 0, v.len());
    assert(v@.subrange(0, v@.len() as int) == v@);
    s
}

/// Whether two texts are the same.
pub fn same_text(a: &str, b: &str) -> (r: bool)
    ensures
        r == (a@ == b@),
{
    let x = chars_of(a);
    let y = chars_of(b);
    same_chars(&x, &y)
}

/// Whether two character vectors are the same.
pub fn same_chars(x: &Vec<char>, y: &Vec<char>) -> (r: bool)
    ensures
        r == (x@ == y@),
{
    if x.len() != y.len() {
        return false;
    }
    let mut i: usize = 0;
    while i < x.len()
        invariant
            x.len() == y.len(),
            i <= x.len(),
            forall|j: int| 0 <= j < i ==> x@[j] == y@[j],
        decreases x.len() - i,
    {
        if x[i] != y[i] {
            return false;
        }
        i += 1;
    }
    assert(x@ == y@);
    true
}

/// `s` without white space at either end.
pub fn trim(s: &str) -> (r: String)
    ensures
        r@ == trimmed(s@),
{
    let v = chars_of(s);
    let mut i: usize = 0;
    assert(s@.skip(0) == s@);
    while i < v.len() && is_whitespace(v[i])
        invariant
            v@ == s@,
            i <= v.len(),
            skip_white(s@) == skip_white(s@.skip(i as int)),
        decreases v.len() - i,
    {
        assert(s@.skip(i as int).drop_first() == s@.skip(i + 1));
        i += 1;
    }
    let ghost rest = s@.skip(i as int);
    assert(skip_white(s@) == rest);
    let mut j: usize = v.len();
    assert(rest.take(rest.len() as int) == rest);
    while j > i && is_whitespace(v[j - 1])
        invariant
            v@ == s@,
            i <= j <= v.len(),
            rest == s@.skip(i as int),
            drop_white(rest) == drop_white(rest.take(j - i)),
        decreases j,
    {
        assert(rest.take(j - i).drop_last() == rest.take(j - i - 1));
        assert(rest.take(j - i).last() == s@[j - 1]);
        j -= 1;
    }
    if j > i {
        assert(rest.take(j - i).last() == s@[j - 1]);
    }
    assert(s@.subrange(i as int, j as int) == rest.take(j - i));
    text_between(&v, i, j)
}

/// Whether `s` begins with `pat`.
pub fn starts_with(s: &str, pat: &str) -> (r: bool)
    ensures
        r == has_prefix(s@, pat@),
{
    occurs(&chars_of(s), &chars_of(pat), 0)
}

/// Whether `s` ends with `pat`.
pub fn ends_with(s: &str, pat: &str) -> (r: bool)
    ensures
        r == has_suffix(s@, pat@),
{
    let v = chars_of(s);
    let p = chars_of(pat);
    if p.len() > v.len() {
        return false;
    }
    occurs(&v, &p, v.len() - p.len())
}

/// Whether `pat` stands somewhere in `s`.
pub fn contains(s: &str, pat: &str) -> (r: bool)
    ensures
        r == contains_text(s@, pat@),
{
    find(s, pat).is_some()
}

/// The first position at which `pat` stands in `s`.
pub fn find(s: &str, pat: &str) -> (r: Option<usize>)
    ensures
        r is Some <==> contains_text(s@, pat@),
        r is Some ==> occurs_at(s@, pat@, r->0 as int) && forall|j: int|
            0 <= j < r->0 ==> !#[trigger] occurs_at(s@, pat@, j),
{
    let v = chars_of(s);
    let p = chars_of(pat);
    let mut i: usize = 0;
    while i < v.len()
        invariant
            v@ == s@,
            p@ == pat@,
            i <= v.len(),
            forall|j: int| 0 <= j < i ==> !#[trigger] occurs_at(s@, pat@, j),
        decreases v.len() - i,
    {
        if occurs(&v, &p, i) {
            assert(occurs_at(s@, pat@, i as int));
            return Some(i);
        }
        i += 1;
    }
    if occurs(&v, &p, i) {
        assert(occurs_at(s@, pat@, i as int));
        return Some(i);
    }
    assert(!contains_text(s@, pat@)) by {
        assert forall|j: int| !#[trigger] occurs_at(s@, pat@, j) by {}
    }
    None
}

/// `s` from character `n` on.
pub fn tail(s: &str, n: usize) -> (r: String)
    requires
        n <= s@.len(),
    ensures
        r@ == s@.skip(n as int),
{
    let v = chars_of(s);
    assert(v@.subrange(n as int, v@.len() as int) == s@.skip(n as int));
    text_between(&v, n, v.len())
}

/// `s` without the prefix `pat`, if it has that prefix.
pub fn strip_prefix(s: &str, pat: &str) -> (r: Option<String>)
    ensures
        r is Some <==> has_prefix(s@, pat@),
        r is Some ==> r->0@ == s@.skip(pat@.len() as int),
{
    if starts_with(s, pat) {
        Some(tail(s, pat.unicode_len()))
    } else {
        None
    }
}

/// Facts about the first place of a character.
pub proof fn lemma_first_of(s: Seq<char>, c: char)
    ensures
        0 <= first_of(s, c) <= s.len(),
        first_of(s, c) < s.len() ==> s[first_of(s, c)] == c,
        forall|i: int| 0 <= i < first_of(s, c) ==> #[trigger] s[i] != c,
    decreases s.len(),
{
    if s.len() > 0 && s[0] != c {
        lemma_first_of(s.drop_first(), c);
        let t = s.drop_first();
        assert forall|i: int| 0 <= i < first_of(s, c) implies #[trigger] s[i] != c by {
            if i > 0 {
                assert(t[i - 1] == s[i]);
            }
        }
    }
}

/// The first place of a character is where it stands and nothing before it does.
pub proof fn lemma_first_of_is(s: Seq<char>, c: char, n: int)
    requires
        0 <= n <= s.len(),
        n < s.len() ==> s[n] == c,
        forall|i: int| 0 <= i < n ==> #[trigger] s[i] != c,
    ensures
        first_of(s, c) == n,
{
    lemma_first_of(s, c);
}

/// The position of the first `c` from position `from` on, or the length of `v`.
fn scan(v: &Vec<char>, from: usize, c: char) -> (r: usize)
    requires
        from <= v.len(),
    ensures
        from <= r <= v.len(),
        r - from == first_of(v@.skip(from as int), c),
{
    let mut i: usize = from;
    while i < v.len() && v[i] != c
        invariant
            from <= i <= v.len(),
            forall|j: int| from <= j < i ==> #[trigger] v@[j] != c,
        decreases v.len() - i,
    {
        i += 1;
    }
    proof {
        lemma_first_of_is(v@.skip(from as int), c, i - from);
    }
    i
}

/// What stands before the first `c` and what stands behind it.
pub fn split_once(s: &str, c: char) -> (r: Option<(String, String)>)
    ensures
        r is Some <==> first_of(s@, c) < s@.len(),
        r is Some ==> (r->0).0@ == s@.take(first_of(s@, c)) && (r->0).1@ == s@.skip(
            first_of(s@, c) + 1,
        ),
{
    let v = chars_of(s);
    assert(v@.skip(0) == s@);
    let n: usize = scan(&v, 0, c);
    if n == v.len() {
        return None;
    }
    assert(v@.subrange(0, n as int) == s@.take(n as int));
    assert(v@.subrange(n + 1, v@.len() as int) == s@.skip(n + 1));
    Some((text_between(&v, 0, n), text_between(&v, n + 1, v.len())))
}

/// What a list of texts says.
pub open spec fn texts(v: Seq<String>) -> Seq<Seq<char>> {
    v.map_values(|s: String| s@)
}

/// The lines of `s`.
pub fn lines(s: &str) -> (r: Vec<String>)
    ensures
        texts(r@) == lines_of(s@),
{
    let v = chars_of(s);
    let mut r: Vec<String> = Vec::new();
    let mut i: usize = 0;
    assert(s@.skip(0) == s@);
    assert(texts(r@) =~= Seq::<Seq<char>>::empty());
    assert(texts(r@) + lines_of(s@) =~= lines_of(s@));
    while i < v.len()
        invariant
            v@ == s@,
            i <= v.len(),
            texts(r@) + lines_of(s@.skip(i as int)) == lines_of(s@),
        decreases v.len() - i,
    {
        let n: usize = scan(&v, i, '\n');
        let ghost rest = s@.skip(i as int);
        let ghost done = texts(r@);
        if n == v.len() {
            let line = text_between(&v, i, n);
            assert(line@ == rest);
            r.push(line);
            assert(texts(r@) =~= done + seq![rest]);
            assert(s@.skip(n as int) =~= Seq::<char>::empty());
            assert(texts(r@) + lines_of(s@.skip(n as int)) =~= lines_of(s@));
            i = n;
        } else {
            let mut end: usize = n;
            assert(rest.take(n - i) == s@.subrange(i as int, n as int));
            if n > i && v[n - 1] == '\r' {
                end = n - 1;
            }
            let line = text_between(&v, i, end);
            assert(line@ == without_cr(rest.take(n - i)));
            r.push(line);
            assert(rest.skip(n - i + 1) == s@.skip(n + 1));
            assert(texts(r@) =~= done + seq![without_cr(rest.take(n - i))]);
            assert(texts(r@) + lines_of(s@.skip(n + 1)) =~= lines_of(s@));
            i = n + 1;
        }
    }
    assert(s@.skip(i as int) =~= Seq::<char>::empty());
    assert(texts(r@) =~= texts(r@) + lines_of(s@.skip(i as int)));
    r
}

/// `c` with the ASCII capitals made small.
pub fn lower_char(c: char) -> (r: char)
    ensures
        r == ascii_lower(c),
{
    if 'A' <= c && c <= 'Z' {
        ((c as u8) + 32) as char
    } else {
        c
    }
}

/// `s` with the ASCII capitals made small.
pub fn to_ascii_lowercase(s: &str) -> (r: String)
    ensures
        r@ == ascii_lowered(s@),
{
    let v = chars_of(s);
    let mut w: Vec<char> = Vec::new();
    let mut i: usize = 0;
    while i < v.len()
        invariant
            v@ == s@,
            i <= v.len(),
            w@ =~= ascii_lowered(s@.take(i as int)),
        decreases v.len() - i,
    {
        w.push(lower_char(v[i]));
        i += 1;
    }
    assert(s@.take(i as int) == s@);
    text_of(&w)
}

/// `n` in decimal.
pub fn decimal_text(n: u64) -> (r: String)
    ensures
        r@ == decimal(n as nat),
    decreases n,
{
    let d: u8 = (n % 10) as u8;
    let c: char = (48 + d) as char;
    assert(c == digit_char((n % 10) as int));
    if n < 10 {
        let mut r = String::new();
        push_char(&mut r, c);
        assert(r@ =~= decimal(n as nat));
        r
    } else {
        let mut r = decimal_text(n / 10);
        push_char(&mut r, c);
        r
    }
}

proof fn lemma_digits_grow(s: Seq<char>, n: int)
    requires
        all_digits(s),
        0 <= n <= s.len(),
    ensures
        digits_value(s.take(n)) <= digits_value(s),
    decreases s.len(),
{
    if n == s.len() {
        assert(s.take(n) =~= s);
    } else if s.len() > 1 {
        let d = s.drop_last();
        assert forall|i: int| 0 <= i < d.len() implies '0' <= #[trigger] d[i] <= '9' by {
            assert(d[i] == s[i]);
        }
        lemma_digits_grow(d, n);
        assert(d.take(n) =~= s.take(n));
    } else {
        assert(s.take(n) =~= Seq::<char>::empty());
    }
}

/// Reads the characters from `start` on as digits that write a number of at most
/// `max`.
fn digits_from(chars: &Vec<char>, start: usize, max: u64) -> (r: Option<u64>)
    requires
        start <= chars@.len(),
    ensures
        match r {
            Some(n) => all_digits(chars@.skip(start as int)) && digits_value(
                chars@.skip(start as int),
            ) == n && n <= max,
            None => !(all_digits(chars@.skip(start as int)) && digits_value(
                chars@.skip(start as int),
            ) <= max),
        },
{
    let ghost digits = chars@.skip(start as int);
    if start == chars.len() {
        return None;
    }
    let mut value: u64 = 0;
    let mut i: usize = start;
    assert(digits.take(0) =~= Seq::<char>::empty());
    while i < chars.len()
        invariant
            start <= i <= chars@.len(),
            digits == chars@.skip(start as int),
            forall|j: int| 0 <= j < i - start ==> '0' <= #[trigger] digits[j] <= '9',
            value == digits_value(digits.take(i - start)),
            value <= max,
        decreases chars.len() - i,
    {
        let c = chars[i];
        assert(digits[i - start] == c);
        if !('0' <= c && c <= '9') {
            return None;
        }
        assert(digits.take(i + 1 - start).drop_last() =~= digits.take(i - start));
        assert(digits.take(i + 1 - start).last() == c);
        let next: u128 = value as u128 * 10 + (c as u32 - 48) as u128;
        if next > max as u128 {
            proof {
                if all_digits(digits) {
                    lemma_digits_grow(digits, i + 1 - start);
                }
            }
            return None;
        }
        value = next as u64;
        i += 1;
    }
    assert(digits.take(i - start) =~= digits);
    Some(value)
}

/// Reads `s` as an unsigned number of at most `max`.
pub fn parse_unsigned(s: &str, max: u64) -> (r: Option<u64>)
    ensures
        match r {
            Some(n) => parsed_unsigned(s@, max as nat) == Some(n as nat),
            None => parsed_unsigned(s@, max as nat) is None,
        },
{
    let chars = chars_of(s);
    assert(chars@.skip(0) =~= s@);
    if chars.len() > 0 && chars[0] == '+' {
        assert(chars@.skip(1) =~= s@.drop_first());
        digits_from(&chars, 1, max)
    } else {
        digits_from(&chars, 0, max)
    }
}

/// What reading `s` as a signed number gives: one optional sign, then digits.
pub open spec fn parsed_signed(s: Seq<char>) -> Option<i64> {
    if s.len() > 0 && s[0] == '-' {
        let digits = s.drop_first();
        if all_digits(digits) && digits_value(digits) <= 0x8000_0000_0000_0000 {
            Some((-(digits_value(digits) as int)) as i64)
        } else {
            None
        }
    } else {
        match parsed_unsigned(s, i64::MAX as nat) {
            Some(n) => Some(n as i64),
            None => None,
        }
    }
}

/// Reads `s` as a signed number.
pub fn parse_signed(s: &str) -> (r: Option<i64>)
    ensures
        r == parsed_signed(s@),
{
    let chars = chars_of(s);
    if chars.len() > 0 && chars[0] == '-' {
        assert(chars@.skip(1) =~= s@.drop_first());
        match digits_from(&chars, 1, 0x8000_0000_0000_0000) {
            Some(n) => if n == 0x8000_0000_0000_0000 {
                Some(i64::MIN)
            } else {
                Some(-(n as i64))
            },
            None => None,
        }
    } else {
        match parse_unsigned(s, i64::MAX as u64) {
            Some(n) => Some(n as i64),
            None => None,
        }
    }
}

/// A number in decimal reads back as itself.
pub proof fn lemma_decimal_round_trip(n: nat)
    ensures
        all_digits(decimal(n)),
        digits_value(decimal(n)) == n,
        decimal(n)[0] != '+',
    decreases n,
{
    let d = decimal(n);
    if n < 10 {
        utf8::char_u32_cast(digit_char(n as int), (48 + n) as u32);
        assert(d.drop_last() =~= Seq::<char>::empty());
        assert(digits_value(d.drop_last()) == 0);
        assert(d.last() as u32 == 48 + n);
    } else {
        lemma_decimal_round_trip(n / 10);
        let before = decimal(n / 10);
        utf8::char_u32_cast(digit_char((n % 10) as int), (48 + n % 10) as u32);
        assert(d.drop_last() =~= before);
        assert(d.last() as u32 == 48 + n % 10);
        assert forall|i: int| 0 <= i < d.len() implies '0' <= #[trigger] d[i] <= '9' by {
            if i < before.len() {
                assert(d[i] == before[i]);
            }
        }
        assert(d[0] == before[0]);
    }
}

/// `s` filled up with spaces to 16 characters.
pub open spec fn padded(s: Seq<char>) -> Seq<char> {
    if s.len() >= 16 {
        s
    } else {
        s + Seq::new((16 - s.len()) as nat, |i: int| ' ')
    }
}

/// Fills `s` up with spaces to 16 characters.
pub fn pad(s: &str) -> (r: String)
    ensures
        r@ == padded(s@),
{
    let mut v = chars_of(s);
    while v.len() < 16
        invariant
            s@.len() <= v@.len(),
            v@.len() <= 16 || v@.len() == s@.len(),
            forall|i: int| 0 <= i < s@.len() ==> v@[i] == s@[i],
            forall|i: int| s@.len() <= i < v@.len() ==> v@[i] == ' ',
        decreases 16 - v.len(),
    {
        v.push(' ');
    }
    assert(v@ =~= padded(s@));
    text_of(&v)
}

/// The first position at which `pat` stands in `s`; past the last one where it
/// stands nowhere.
pub open spec fn first_place(s: Seq<char>, pat: Seq<char>) -> int
    decreases s.len(),
{
    if occurs_at(s, pat, 0) || s.len() == 0 {
        0
    } else {
        1 + first_place(s.drop_first(), pat)
    }
}

/// What the first position of a text is recognised by.
pub proof fn lemma_first_place_is(s: Seq<char>, pat: Seq<char>, i: int)
    requires
        occurs_at(s, pat, i),
        forall|j: int| 0 <= j < i ==> !#[trigger] occurs_at(s, pat, j),
    ensures
        first_place(s, pat) == i,
    decreases s.len(),
{
    if i > 0 {
        let t = s.drop_first();
        assert(!occurs_at(s, pat, 0));
        assert(t.subrange(i - 1, i - 1 + pat.len()) =~= s.subrange(i, i + pat.len()));
        assert forall|j: int| 0 <= j < i - 1 implies !#[trigger] occurs_at(t, pat, j) by {
            assert(!occurs_at(s, pat, j + 1));
            if j + pat.len() <= t.len() {
                assert(t.subrange(j, j + pat.len()) =~= s.subrange(j + 1, j + 1 + pat.len()));
            }
        }
        lemma_first_place_is(t, pat, i - 1);
    }
}

/// The piece of `s` between the first `pat` and the second, or the end.
pub open spec fn piece_behind(s: Seq<char>, pat: Seq<char>) -> Option<Seq<char>> {
    if contains_text(s, pat) {
        let rest = s.skip(first_place(s, pat) + pat.len());
        Some(
            if contains_text(rest, pat) {
                rest.take(first_place(rest, pat))
            } else {
                rest
            },
        )
    } else {
        None
    }
}

/// The piece of `s` between the first `pat` and the second, or the end.
pub fn split_behind(s: &str, pat: &str) -> (r: Option<String>)
    ensures
        match piece_behind(s@, pat@) {
            Some(t) => r is Some && r->0@ == t,
            None => r is None,
        },
{
    let all = chars_of(s);
    match find(s, pat) {
        None => None,
        Some(i) => {
            proof {
                lemma_first_place_is(s@, pat@, i as int);
            }
            assert(i + pat@.len() <= all.len());
            let rest = tail(s, i + pat.unicode_len());
            match find(rest.as_str(), pat) {
                None => Some(rest),
                Some(j) => {
                    proof {
                        lemma_first_place_is(rest@, pat@, j as int);
                    }
                    let v = chars_of(rest.as_str());
                    let r = text_between(&v, 0, j);
                    assert(r@ =~= rest@.take(j as int));
                    Some(r)
                },
            }
        },
    }
}

/// `s` without the `c`s that it ends with.
pub open spec fn without_ending(s: Seq<char>, c: char) -> Seq<char>
    decreases s.len(),
{
    if s.len() > 0 && s.last() == c {
        without_ending(s.drop_last(), c)
    } else {
        s
    }
}

/// `s` without the `c`s that it ends with.
pub fn trim_end_char(s: &str, c: char) -> (r: String)
    ensures
        r@ == without_ending(s@, c),
{
    let v = chars_of(s);
    let mut to: usize = v.len();
    assert(s@.take(to as int) =~= s@);
    while to > 0 && v[to - 1] == c
        invariant
            to <= v@.len(),
            v@ == s@,
            without_ending(s@, c) == without_ending(s@.take(to as int), c),
        decreases to,
    {
        assert(s@.take(to as int).last() == v@[to - 1]);
        assert(s@.take(to as int).drop_last() =~= s@.take(to - 1));
        to -= 1;
    }
    assert(without_ending(s@, c) == s@.take(to as int)) by {
        if to > 0 {
            assert(s@.take(to as int).last() == v@[to - 1]);
        }
    }
    let r = text_between(&v, 0, to);
    assert(r@ =~= s@.take(to as int));
    r
}

/// White space around a text that has none at its ends is what trimming takes
/// away.
pub proof fn lemma_trimmed_core(pre: Seq<char>, core: Seq<char>, post: Seq<char>)
    requires
        forall|i: int| 0 <= i < pre.len() ==> is_white(#[trigger] pre[i]),
        forall|i: int| 0 <= i < post.len() ==> is_white(#[trigger] post[i]),
        core.len() > 0,
        !is_white(core[0]),
        !is_white(core.last()),
    ensures
        trimmed(pre + core + post) == core,
    decreases pre.len() + post.len(),
{
    let s = pre + core + post;
    if pre.len() > 0 {
        let p = pre.drop_first();
        assert(s[0] == pre[0]);
        assert(s.drop_first() =~= p + core + post);
        assert forall|i: int| 0 <= i < p.len() implies is_white(#[trigger] p[i]) by {
            assert(p[i] == pre[i + 1]);
        }
        lemma_trimmed_core(p, core, post);
    } else {
        assert(s =~= core + post);
        assert(s[0] == core[0]);
        assert(skip_white(s) == s);
        lemma_dropped_core(core, post);
    }
}

proof fn lemma_dropped_core(core: Seq<char>, post: Seq<char>)
    requires
        forall|i: int| 0 <= i < post.len() ==> is_white(#[trigger] post[i]),
        core.len() > 0,
        !is_white(core.last()),
    ensures
        drop_white(core + post) == core,
    decreases post.len(),
{
    if post.len() == 0 {
        assert(core + post =~= core);
    } else {
        let p = post.drop_last();
        assert((core + post).last() == post.last());
        assert((core + post).drop_last() =~= core + p);
        assert forall|i: int| 0 <= i < p.len() implies is_white(#[trigger] p[i]) by {
            assert(p[i] == post[i]);
        }
        lemma_dropped_core(core, p);
    }
}

/// Which characters are white space: those that move the cursor on without a mark, up to the
/// ideographic space.
pub proof fn lemma_white_space(c: char)
    ensures
        is_white(' ') && is_white('\t') && is_white('\n') && is_white('\r') && is_white('\u{a0}')
            && is_white('\u{2003}') && is_white('\u{2028}') && is_white('\u{202f}') && is_white(
            '\u{3000}',
        ),
        '!' <= c <= '~' ==> !is_white(c),
        c == '\u{200b}' || c == '\u{feff}' ==> !is_white(c),
{
}

/// What is left of a text without white space around it neither begins nor ends with any, and
/// nothing else of the text is lost.
pub proof fn lemma_trimming_takes_white_space_only(s: Seq<char>)
    ensures
        trimmed(s).len() > 0 ==> !is_white(trimmed(s)[0]) && !is_white(trimmed(s).last()),
        exists|from: int, to: int|
            {
                &&& 0 <= from <= to <= s.len()
                &&& trimmed(s) == #[trigger] s.subrange(from, to)
                &&& forall|i: int| 0 <= i < from || to <= i < s.len() ==> is_white(#[trigger] s[i])
            },
{
    let from = lemma_front_is_white(s);
    let body = skip_white(s);
    assert(body =~= s.skip(from));
    let n = lemma_back_is_white(body);
    assert(trimmed(s) =~= body.take(n));
    assert(trimmed(s) =~= s.subrange(from, from + n));
    assert forall|i: int| 0 <= i < from || from + n <= i < s.len() implies is_white(#[trigger] s[i]) by {
        if i >= from {
            assert(s[i] == body[i - from]);
        }
    }
    if n > 0 {
        assert(trimmed(s)[0] == body[0]);
        assert(trimmed(s).last() == body[n - 1]);
    }
}

proof fn lemma_front_is_white(s: Seq<char>) -> (n: int)
    ensures
        0 <= n <= s.len(),
        skip_white(s) == s.skip(n),
        forall|i: int| 0 <= i < n ==> is_white(#[trigger] s[i]),
        n < s.len() ==> !is_white(s[n]),
    decreases s.len(),
{
    if s.len() > 0 && is_white(s[0]) {
        let m = lemma_front_is_white(s.drop_first());
        assert(s.drop_first().skip(m) =~= s.skip(m + 1));
        assert forall|i: int| 0 <= i < m + 1 implies is_white(#[trigger] s[i]) by {
            if i > 0 {
                assert(s[i] == s.drop_first()[i - 1]);
            }
        }
        if m < s.drop_first().len() {
            assert(s.drop_first()[m] == s[m + 1]);
        }
        m + 1
    } else {
        assert(s.skip(0) =~= s);
        0
    }
}

proof fn lemma_back_is_white(s: Seq<char>) -> (n: int)
    ensures
        0 <= n <= s.len(),
        drop_white(s) == s.take(n),
        forall|i: int| n <= i < s.len() ==> is_white(#[trigger] s[i]),
        n > 0 ==> !is_white(s[n - 1]),
    decreases s.len(),
{
    if s.len() > 0 && is_white(s.last()) {
        let m = lemma_back_is_white(s.drop_last());
        assert(s.drop_last().take(m) =~= s.take(m));
        assert forall|i: int| m <= i < s.len() implies is_white(#[trigger] s[i]) by {
            if i < s.len() - 1 {
                assert(s[i] == s.drop_last()[i]);
            }
        }
        if m > 0 {
            assert(s.drop_last()[m - 1] == s[m - 1]);
        }
        m
    } else {
        assert(s.take(s.len() as int) =~= s);
        s.len() as int
    }
}

/// A line ends at a line feed, with a carriage return before it or without; what follows are
/// the other lines, and an end of the text right behind a line feed is no line more.
pub proof fn lemma_lines_one_by_one(line: Seq<char>, rest: Seq<char>)
    requires
        forall|i: int| 0 <= i < line.len() ==> #[trigger] line[i] != '\n',
        line.len() == 0 || line.last() != '\r',
    ensures
        lines_of(line + seq!['\n'] + rest) == seq![line] + lines_of(rest),
        lines_of(line + seq!['\r', '\n'] + rest) == seq![line] + lines_of(rest),
        line.len() > 0 ==> lines_of(line) == seq![line],
        lines_of(Seq::empty()).len() == 0,
{
    let a = line + seq!['\n'] + rest;
    let n = line.len() as int;
    assert forall|i: int| 0 <= i < n implies #[trigger] a[i] != '\n' by {
        assert(a[i] == line[i]);
    }
    lemma_first_of_is(a, '\n', n);
    assert(a.take(n) =~= line);
    assert(a.skip(n + 1) =~= rest);
    assert(lines_of(a) =~= seq![line] + lines_of(rest));
    let b = line + seq!['\r', '\n'] + rest;
    assert forall|i: int| 0 <= i < n + 1 implies #[trigger] b[i] != '\n' by {
        if i < n {
            assert(b[i] == line[i]);
        }
    }
    lemma_first_of_is(b, '\n', n + 1);
    let with_cr = b.take(n + 1);
    assert(with_cr.last() == '\r');
    assert(with_cr.drop_last() =~= line);
    assert(b.skip(n + 2) =~= rest);
    assert(lines_of(b) =~= seq![line] + lines_of(rest));
    if n > 0 {
        lemma_first_of_is(line, '\n', n);
        assert(line.take(n) =~= line);
        assert(lines_of(line) =~= seq![line]);
    }
}

/// Capitals of the alphabet become its small letters, and nothing else changes.
pub proof fn lemma_small_letters(s: Seq<char>, i: int, k: int)
    requires
        0 <= i < s.len(),
    ensures
        ascii_lowered(s).len() == s.len(),
        0 <= k < 26 && s[i] == "ABCDEFGHIJKLMNOPQRSTUVWXYZ"@[k] ==> ascii_lowered(s)[i]
            == "abcdefghijklmnopqrstuvwxyz"@[k],
        !('A' <= s[i] <= 'Z') ==> ascii_lowered(s)[i] == s[i],
{
    reveal_strlit("ABCDEFGHIJKLMNOPQRSTUVWXYZ");
    reveal_strlit("abcdefghijklmnopqrstuvwxyz");
}

/// A number is read back from its decimal text, with a sign or without, where it is not too
/// large; and what is no number is not read as one.
pub proof fn lemma_numbers_are_read_back(n: nat, max: nat, s: Seq<char>, i: int)
    ensures
        n <= max ==> parsed_unsigned(decimal(n), max) == Some(n),
        n <= max ==> parsed_unsigned(seq!['+'] + decimal(n), max) == Some(n),
        n > max ==> parsed_unsigned(decimal(n), max) is None,
        parsed_unsigned(Seq::empty(), max) is None,
        0 < i < s.len() && !('0' <= s[i] <= '9') ==> parsed_unsigned(s, max) is None,
        n <= 0x7fff_ffff_ffff_ffff ==> parsed_signed(decimal(n)) == Some(n as i64)
            && parsed_signed(seq!['-'] + decimal(n)) == Some((-n) as i64),
{
    lemma_decimal_round_trip(n);
    assert((seq!['+'] + decimal(n)).drop_first() =~= decimal(n));
    assert((seq!['-'] + decimal(n)).drop_first() =~= decimal(n));
    assert('0' <= decimal(n)[0] <= '9');
    if 0 < i < s.len() && !('0' <= s[i] <= '9') {
        assert(s.drop_first()[i - 1] == s[i]);
    }
}

/// The decimal text of a number is that of its tens and then its last digit.
pub proof fn lemma_decimal_digits(n: nat)
    ensures
        n < 10 ==> decimal(n) == seq!["0123456789"@[n as int]],
        n >= 10 ==> decimal(n) == decimal(n / 10).push("0123456789"@[(n % 10) as int]),
{
    reveal_strlit("0123456789");
}

/// A name shorter than the column gets spaces behind it up to sixteen characters, and a longer
/// one stays as it is.
pub proof fn lemma_columns(s: Seq<char>, i: int)
    ensures
        s.len() >= 16 ==> padded(s) == s,
        s.len() < 16 ==> padded(s).len() == 16 && padded(s).take(s.len() as int) == s,
        s.len() <= i < 16 ==> padded(s)[i] == ' ',
{
    if s.len() < 16 {
        assert(padded(s).take(s.len() as int) =~= s);
    }
}

/// The piece of a text behind a separator ends where the separator stands again, or with the text.
pub proof fn lemma_piece_behind_a_separator(a: Seq<char>, sep: Seq<char>, b: Seq<char>, c: Seq<char>)
    requires
        sep.len() > 0,
        forall|j: int| 0 <= j < a.len() ==> !#[trigger] occurs_at(a + sep + b, sep, j),
        !contains_text(b, sep),
        forall|j: int| 0 <= j < a.len() ==> !#[trigger] occurs_at(a + sep + (b + sep + c), sep, j),
        forall|j: int| 0 <= j < b.len() ==> !#[trigger] occurs_at(b + sep + c, sep, j),
    ensures
        piece_behind(a + sep + b, sep) == Some(b),
        piece_behind(a + sep + (b + sep + c), sep) == Some(b),
{
    let n = a.len() as int;
    let rest = b + sep + c;
    let t = a + sep + rest;
    let m = b.len() as int;
    assert(t.subrange(n, n + sep.len()) =~= sep);
    assert(occurs_at(t, sep, n));
    lemma_first_place_is(t, sep, n);
    assert(t.skip(n + sep.len()) =~= rest);
    assert(rest.subrange(m, m + sep.len()) =~= sep);
    assert(occurs_at(rest, sep, m));
    lemma_first_place_is(rest, sep, m);
    assert(rest.take(m) =~= b);
    let s = a + sep + b;
    assert(s.subrange(n, n + sep.len()) =~= sep);
    assert(occurs_at(s, sep, n));
    lemma_first_place_is(s, sep, n);
    assert(s.skip(n + sep.len()) =~= b);
}

/// Taking a character off the end takes all of them off, and nothing else.
pub proof fn lemma_ending_is_taken_off(s: Seq<char>, c: char)
    ensures
        without_ending(s.push(c), c) == without_ending(s, c),
        s.len() > 0 && s.last() != c ==> without_ending(s, c) == s,
        without_ending(s, c).len() > 0 ==> without_ending(s, c).last() != c,
    decreases s.len(),
{
    assert(s.push(c).drop_last() =~= s);
    if s.len() > 0 && s.last() == c {
        lemma_ending_is_taken_off(s.drop_last(), c);
    }
}

} // verus!
