//! The phone's contacts, as far as the laptop looks into them.

use vstd::prelude::*;

use crate::codec;
use crate::codec::{hex_encode, sha256_digest};
use crate::text;
use crate::text::{chars_of, same_text, to_lowercase, trim};

verus! {

/// A contact.
#[derive(Debug, Clone, PartialEq, Eq)]
pub struct Contact {
    pub name: String,
    pub numbers: Vec<String>,
}

/// A name as it is compared: without white space around it, in small letters.
pub open spec fn folded(name: Seq<char>) -> Seq<char> {
    text::lowercased(text::trimmed(name))
}

/// The first number that is not empty.
pub open spec fn first_number(numbers: Seq<Seq<char>>) -> Option<Seq<char>>
    decreases numbers.len(),
{
    if numbers.len() == 0 {
        None
    } else if text::trimmed(numbers[0]).len() > 0 {
        Some(numbers[0])
    } else {
        first_number(numbers.drop_first())
    }
}

/// The place of the first name that is `want`, or the number of names.
pub open spec fn place_of(names: Seq<Seq<char>>, want: Seq<char>) -> int
    decreases names.len(),
{
    if names.len() == 0 || names[0] == want {
        0
    } else {
        1 + place_of(names.drop_first(), want)
    }
}

/// The number of the first contact whose folded name is `want`.
pub open spec fn number_of(contacts: Seq<Contact>, names: Seq<Seq<char>>, want: Seq<char>) -> Option<
    Seq<char>,
> {
    let at = place_of(names, want);
    if want.len() == 0 || at >= contacts.len() {
        None
    } else {
        first_number(text::texts(contacts[at].numbers@))
    }
}

/// The folded names of contacts.
pub open spec fn folded_names(contacts: Seq<Contact>) -> Seq<Seq<char>> {
    contacts.map_values(|c: Contact| folded(c.name@))
}

/// The first number that is not empty.
fn pick_number(numbers: &Vec<String>) -> (r: Option<String>)
    ensures
        text::maybe(r) == first_number(text::texts(numbers@)),
{
    let ghost all = text::texts(numbers@);
    let mut i: usize = 0;
    assert(all.skip(0) =~= all);
    while i < numbers.len()
        invariant
            i <= numbers@.len(),
            all == text::texts(numbers@),
            first_number(all) == first_number(all.skip(i as int)),
        decreases numbers.len() - i,
    {
        assert(all.skip(i as int)[0] == numbers@[i as int]@);
        assert(all.skip(i as int).drop_first() =~= all.skip(i + 1));
        let bare = trim(numbers[i].as_str());
        if chars_of(bare.as_str()).len() > 0 {
            return Some(numbers[i].as_str().to_string());
        }
        i += 1;
    }
    None
}

/// The number of the first contact whose folded name is `want`. `names` are the
/// folded names, in the order of the contacts.
pub fn number_of_folded(contacts: &Vec<Contact>, names: &Vec<String>, want: &str) -> (r: Option<
    String,
>)
    requires
        names@.len() == contacts@.len(),
    ensures
        text::maybe(r) == number_of(contacts@, text::texts(names@), want@),
{
    if chars_of(want).len() == 0 {
        return None;
    }
    let ghost all = text::texts(names@);
    let mut i: usize = 0;
    assert(all.skip(0) =~= all);
    while i < names.len()
        invariant
            i <= names@.len() == contacts@.len(),
            all == text::texts(names@),
            place_of(all, want@) == i + place_of(all.skip(i as int), want@),
            want@.len() > 0,
        decreases names.len() - i,
    {
        assert(all.skip(i as int)[0] == names@[i as int]@);
        assert(all.skip(i as int).drop_first() =~= all.skip(i + 1));
        if same_text(names[i].as_str(), want) {
            return pick_number(&contacts[i].numbers);
        }
        i += 1;
    }
    None
}

/// The number under which the contact with this name can be reached. Capitals and
/// white space around the name do not matter; nobody is called nothing.
pub fn lookup_number_by_name(contacts: &Vec<Contact>, name: &str) -> (r: Option<String>)
    ensures
        text::maybe(r) == number_of(contacts@, folded_names(contacts@), folded(name@)),
{
    let want = to_lowercase(trim(name).as_str());
    let mut names: Vec<String> = Vec::new();
    let mut i: usize = 0;
    while i < contacts.len()
        invariant
            i <= contacts@.len(),
            names@.len() == i,
            forall|j: int| 0 <= j < i ==> (#[trigger] names@[j])@ == folded(contacts@[j].name@),
        decreases contacts.len() - i,
    {
        names.push(to_lowercase(trim(contacts[i].name.as_str()).as_str()));
        i += 1;
    }
    assert(text::texts(names@) =~= folded_names(contacts@));
    number_of_folded(contacts, &names, want.as_str())
}

/// The mark by which the phone sees whether the laptop's copy is up to date:
/// nothing where there is no copy.
pub fn cache_hash(cached: &Option<Vec<u8>>) -> (r: String)
    ensures
        r@ == match *cached {
            Some(b) => codec::hex_text(codec::sha256(b@)),
            None => ""@,
        },
{
    match cached {
        Some(b) => {
            let digest = sha256_digest(b.as_slice());
            hex_encode(digest.as_slice())
        },
        None => "".to_string(),
    }
}

proof fn lemma_place_is(names: Seq<Seq<char>>, want: Seq<char>, i: int)
    requires
        0 <= i <= names.len(),
        forall|j: int| 0 <= j < i ==> #[trigger] names[j] != want,
        i < names.len() ==> names[i] == want,
    ensures
        place_of(names, want) == i,
    decreases names.len(),
{
    if i > 0 {
        assert(names[0] != want);
        let rest = names.drop_first();
        assert forall|j: int| 0 <= j < i - 1 implies #[trigger] rest[j] != want by {
            assert(rest[j] == names[j + 1]);
        }
        lemma_place_is(rest, want, i - 1);
    }
}

proof fn lemma_first_number_is(numbers: Seq<Seq<char>>, i: int)
    requires
        0 <= i <= numbers.len(),
        forall|j: int| 0 <= j < i ==> text::trimmed(#[trigger] numbers[j]).len() == 0,
        i < numbers.len() ==> text::trimmed(numbers[i]).len() > 0,
    ensures
        i < numbers.len() ==> first_number(numbers) == Some(numbers[i]),
        i == numbers.len() ==> first_number(numbers) is None,
    decreases numbers.len(),
{
    if i > 0 {
        assert(text::trimmed(numbers[0]).len() == 0);
        let rest = numbers.drop_first();
        assert forall|j: int| 0 <= j < i - 1 implies text::trimmed(#[trigger] rest[j]).len() == 0 by {
            assert(rest[j] == numbers[j + 1]);
        }
        lemma_first_number_is(rest, i - 1);
    }
}

/// Whoever is looked up by name is the first contact with that name, whatever the capitals and
/// the white space around it, and is reached at the first number that is not blank.
pub proof fn lemma_contact_is_found_by_name(
    contacts: &Vec<Contact>,
    name: &str,
    r: Option<String>,
    at: int,
    n: int,
)
    requires
        call_ensures(lookup_number_by_name, (contacts, name), r),
        text::lowercased(text::trimmed(name@)).len() > 0,
        0 <= at < contacts@.len(),
        text::lowercased(text::trimmed(contacts@[at].name@)) == text::lowercased(
            text::trimmed(name@),
        ),
        forall|j: int|
            0 <= j < at ==> text::lowercased(text::trimmed((#[trigger] contacts@[j]).name@))
                != text::lowercased(text::trimmed(name@)),
        0 <= n < contacts@[at].numbers@.len(),
        text::trimmed(contacts@[at].numbers@[n]@).len() > 0,
        forall|j: int|
            0 <= j < n ==> text::trimmed((#[trigger] contacts@[at].numbers@[j])@).len() == 0,
    ensures
        r is Some && r->0@ == contacts@[at].numbers@[n]@,
{
    let names = folded_names(contacts@);
    let want = folded(name@);
    assert forall|j: int| 0 <= j < at implies #[trigger] names[j] != want by {
        assert(names[j] == folded(contacts@[j].name@));
    }
    assert(names[at] == folded(contacts@[at].name@));
    lemma_place_is(names, want, at);
    let numbers = text::texts(contacts@[at].numbers@);
    assert forall|j: int| 0 <= j < n implies text::trimmed(#[trigger] numbers[j]).len() == 0 by {
        assert(numbers[j] == contacts@[at].numbers@[j]@);
    }
    lemma_first_number_is(numbers, n);
}

/// Nobody is found under a name that no contact has, nor under none.
pub proof fn lemma_stranger_is_not_found(contacts: &Vec<Contact>, name: &str, r: Option<String>)
    requires
        call_ensures(lookup_number_by_name, (contacts, name), r),
        text::lowercased(text::trimmed(name@)).len() == 0 || forall|j: int|
            0 <= j < contacts@.len() ==> text::lowercased(
                text::trimmed((#[trigger] contacts@[j]).name@),
            ) != text::lowercased(text::trimmed(name@)),
    ensures
        r is None,
{
    let names = folded_names(contacts@);
    let want = folded(name@);
    if want.len() > 0 {
        assert forall|j: int| 0 <= j < names.len() implies #[trigger] names[j] != want by {
            assert(names[j] == folded(contacts@[j].name@));
        }
        lemma_place_is(names, want, names.len() as int);
    }
}

/// The mark of a copy is the digest of its bytes, in hexadecimal, and without a copy it is empty.
pub proof fn lemma_mark_of_a_copy(cached: &Option<Vec<u8>>, r: String)
    requires
        call_ensures(cache_hash, (cached,), r),
    ensures
        cached is None ==> r@ == ""@,
        cached is Some ==> r@ == codec::hex_text(codec::sha256((cached->0)@)),
{
}

} // verus!
