//! This device's identity in the keyring of the desktop.
//!
//! The keyring is asked step by step, and each step may fail in its own way. An
//! item may be locked, in which case the desktop is asked to unlock it before
//! the secret is read or written.

use vstd::prelude::*;

use crate::storage::StorageError;

verus! {

/// The attribute by which the item is found.
pub const SCHEMA: &'static str = "com.vortex.identity.v1";

/// The version attribute.
pub const VERSION: &'static str = "1";

/// The name of the item, as the keyring's own tools show it.
pub const LABEL: &'static str = "Vortex V1 identity";

/// The content type of the secret.
pub const CONTENT_TYPE: &'static str = "application/x-vortex-identity-v1";

/// What is asked of the keyring.
#[derive(Debug, Clone, Copy, PartialEq, Eq, Structural)]
pub enum Call {
    /// The first connection of the process, which finds out whether there is a
    /// keyring at all.
    Probe,
    Connect,
    DefaultCollection,
    UnlockCollection,
    CreateItem,
    Search,
    UnlockItem,
    GetSecret,
    Delete,
    /// Reading the bytes of the record.
    Decode,
}

/// What the text of a failed call begins with.
pub open spec fn complaint(call: Call) -> Seq<char> {
    match call {
        Call::Probe => "secret service connect: "@,
        Call::Connect => "connect: "@,
        Call::DefaultCollection => "default collection: "@,
        Call::UnlockCollection => "unlock refused or unavailable: "@,
        Call::CreateItem => "create_item: "@,
        Call::Search => "search: "@,
        Call::UnlockItem => "unlock: "@,
        Call::GetSecret => "get_secret: "@,
        Call::Delete => "delete: "@,
        Call::Decode => ""@,
    }
}

/// What a failed call means. A collection that will not be unlocked is locked;
/// everything else is a failure of the backend.
pub open spec fn failed(call: Call, message: Seq<char>) -> StorageError<Seq<char>> {
    if call is UnlockCollection {
        StorageError::Locked(complaint(call) + message)
    } else {
        StorageError::Backend(complaint(call) + message)
    }
}

/// What a failed call means.
pub fn failure(call: Call, message: &str) -> (r: StorageError)
    ensures
        r@ == failed(call, message@),
{
    let mut m = (match call {
        Call::Probe => "secret service connect: ",
        Call::Connect => "connect: ",
        Call::DefaultCollection => "default collection: ",
        Call::UnlockCollection => "unlock refused or unavailable: ",
        Call::CreateItem => "create_item: ",
        Call::Search => "search: ",
        Call::UnlockItem => "unlock: ",
        Call::GetSecret => "get_secret: ",
        Call::Delete => "delete: ",
        Call::Decode => "",
    }).to_string();
    m.append(message);
    match call {
        Call::UnlockCollection => StorageError::Locked(m),
        _ => StorageError::Backend(m),
    }
}

/// Which item of a search is read: the last unlocked one, or the last locked one
/// when no item is unlocked.
#[derive(Debug, Clone, Copy, PartialEq, Eq, Structural)]
pub enum Choice {
    Unlocked(usize),
    Locked(usize),
}

/// Picks the item to read from a search that found this many.
pub fn choose_item(unlocked: usize, locked: usize) -> (r: Result<Choice, StorageError>)
    ensures
        match r {
            Ok(Choice::Unlocked(i)) => unlocked > 0 && i == unlocked - 1,
            Ok(Choice::Locked(i)) => unlocked == 0 && locked > 0 && i == locked - 1,
            Err(e) => unlocked == 0 && locked == 0 && e is NotFound,
        },
{
    if unlocked > 0 {
        Ok(Choice::Unlocked(unlocked - 1))
    } else if locked > 0 {
        Ok(Choice::Locked(locked - 1))
    } else {
        Err(StorageError::NotFound)
    }
}

/// What a session with the keyring is for.
#[derive(Debug, Clone, Copy, PartialEq, Eq, Structural)]
pub enum Purpose {
    Open,
    Save,
    Load,
    Forget,
}

/// The keyring as a store of this device's identity: one session of calls.
pub struct SecretServiceIdentityStore {
    pub purpose: Purpose,
}

/// What is asked next.
#[derive(Debug, Clone, Copy, PartialEq, Eq, Structural)]
pub enum Next {
    Ask(Call),
    Done,
}

/// What follows a call that succeeded. `locked` says whether what the call
/// returned is locked; a keyring that does not say is taken not to be.
pub open spec fn after(purpose: Purpose, call: Call, locked: Option<bool>) -> Next {
    match (purpose, call) {
        (Purpose::Open, Call::Probe) => Next::Ask(Call::DefaultCollection),
        (Purpose::Save, Call::Connect) => Next::Ask(Call::DefaultCollection),
        (Purpose::Save, Call::DefaultCollection) => if locked == Some(true) {
            Next::Ask(Call::UnlockCollection)
        } else {
            Next::Ask(Call::CreateItem)
        },
        (Purpose::Save, Call::UnlockCollection) => Next::Ask(Call::CreateItem),
        (Purpose::Load, Call::Connect) => Next::Ask(Call::Search),
        (Purpose::Load, Call::Search) => if locked == Some(true) {
            Next::Ask(Call::UnlockItem)
        } else {
            Next::Ask(Call::GetSecret)
        },
        (Purpose::Load, Call::UnlockItem) => Next::Ask(Call::GetSecret),
        (Purpose::Load, Call::GetSecret) => Next::Ask(Call::Decode),
        (Purpose::Forget, Call::Connect) => Next::Ask(Call::Search),
        (Purpose::Forget, Call::Search) => Next::Ask(Call::Delete),
        _ => Next::Done,
    }
}

impl SecretServiceIdentityStore {
    /// The session that finds out whether there is a keyring, and its first call.
    pub fn new() -> (r: (Self, Call))
        ensures
            r.0.purpose is Open && r.1 is Probe,
    {
        (SecretServiceIdentityStore { purpose: Purpose::Open }, Call::Probe)
    }

    /// A session that saves, loads or forgets, and its first call.
    pub fn begin(purpose: Purpose) -> (r: (Self, Call))
        ensures
            r.0.purpose == purpose,
            r.1 == if purpose is Open {
                Call::Probe
            } else {
                Call::Connect
            },
    {
        let call = match purpose {
            Purpose::Open => Call::Probe,
            _ => Call::Connect,
        };
        (SecretServiceIdentityStore { purpose }, call)
    }

    /// What follows a call: the next one, the end, or, when the call failed with
    /// a message, the error that the session ends with.
    pub fn step(&self, call: Call, answer: Result<Option<bool>, String>) -> (r: Result<
        Next,
        StorageError,
    >)
        ensures
            match answer {
                Ok(locked) => r == Ok::<Next, StorageError>(after(self.purpose, call, locked)),
                Err(m) => r is Err && r->Err_0@ == failed(call, m@),
            },
    {
        match answer {
            Err(m) => Err(failure(call, m.as_str())),
            Ok(locked) => {
                let is_locked = match locked {
                    Some(l) => l,
                    None => false,
                };
                let next = match (self.purpose, call) {
                    (Purpose::Open, Call::Probe) => Next::Ask(Call::DefaultCollection),
                    (Purpose::Save, Call::Connect) => Next::Ask(Call::DefaultCollection),
                    (Purpose::Save, Call::DefaultCollection) => if is_locked {
                        Next::Ask(Call::UnlockCollection)
                    } else {
                        Next::Ask(Call::CreateItem)
                    },
                    (Purpose::Save, Call::UnlockCollection) => Next::Ask(Call::CreateItem),
                    (Purpose::Load, Call::Connect) => Next::Ask(Call::Search),
                    (Purpose::Load, Call::Search) => if is_locked {
                        Next::Ask(Call::UnlockItem)
                    } else {
                        Next::Ask(Call::GetSecret)
                    },
                    (Purpose::Load, Call::UnlockItem) => Next::Ask(Call::GetSecret),
                    (Purpose::Load, Call::GetSecret) => Next::Ask(Call::Decode),
                    (Purpose::Forget, Call::Connect) => Next::Ask(Call::Search),
                    (Purpose::Forget, Call::Search) => Next::Ask(Call::Delete),
                    _ => Next::Done,
                };
                Ok(next)
            },
        }
    }
}

/// Nothing is written to a collection that says that it is locked: the call that
/// follows is the one that unlocks it.
pub proof fn lemma_locked_is_unlocked_first(call: Call, locked: Option<bool>)
    requires
        locked == Some(true),
        call is DefaultCollection,
    ensures
        after(Purpose::Save, call, locked) == Next::Ask(Call::UnlockCollection),
        after(Purpose::Save, Call::UnlockCollection, None) == Next::Ask(Call::CreateItem),
{
}

/// What a failed call is reported as: each with its own words, and only a collection that stays
/// shut as locked.
pub proof fn lemma_failed_calls_are_named(call: Call, m: &str, r: StorageError)
    requires
        call_ensures(failure, (call, m), r),
    ensures
        call is Probe ==> r@ == StorageError::Backend("secret service connect: "@ + m@),
        call is Connect ==> r@ == StorageError::Backend("connect: "@ + m@),
        call is DefaultCollection ==> r@ == StorageError::Backend("default collection: "@ + m@),
        call is UnlockCollection ==> r@ == StorageError::Locked(
            "unlock refused or unavailable: "@ + m@,
        ),
        call is CreateItem ==> r@ == StorageError::Backend("create_item: "@ + m@),
        call is Search ==> r@ == StorageError::Backend("search: "@ + m@),
        call is UnlockItem ==> r@ == StorageError::Backend("unlock: "@ + m@),
        call is GetSecret ==> r@ == StorageError::Backend("get_secret: "@ + m@),
        call is Delete ==> r@ == StorageError::Backend("delete: "@ + m@),
        call is Decode ==> r@ == StorageError::Backend(m@),
{
    reveal_strlit("");
    assert(""@ + m@ =~= m@);
}

/// The calls of a session, in their order: saving connects, takes the default collection,
/// unlocks it where it is locked, and creates the item; loading connects, searches, unlocks the
/// item where it is locked, and reads it; forgetting connects, searches and deletes.
pub proof fn lemma_calls_in_their_order(
    s: &SecretServiceIdentityStore,
    call: Call,
    locked: Option<bool>,
    r: Result<Next, StorageError>,
)
    requires
        call_ensures(SecretServiceIdentityStore::step, (s, call, Ok(locked)), r),
    ensures
        r is Ok,
        ({
            let next = r->Ok_0;
            let shut = locked is Some && locked->0;
            &&& s.purpose is Open && call is Probe ==> next == Next::Ask(Call::DefaultCollection)
            &&& s.purpose is Open && call is DefaultCollection ==> next == Next::Done
            &&& s.purpose is Save && call is Connect ==> next == Next::Ask(Call::DefaultCollection)
            &&& s.purpose is Save && call is DefaultCollection && shut ==> next == Next::Ask(
                Call::UnlockCollection,
            )
            &&& s.purpose is Save && call is DefaultCollection && !shut ==> next == Next::Ask(
                Call::CreateItem,
            )
            &&& s.purpose is Save && call is UnlockCollection ==> next == Next::Ask(Call::CreateItem)
            &&& s.purpose is Save && call is CreateItem ==> next == Next::Done
            &&& s.purpose is Load && call is Connect ==> next == Next::Ask(Call::Search)
            &&& s.purpose is Load && call is Search && shut ==> next == Next::Ask(Call::UnlockItem)
            &&& s.purpose is Load && call is Search && !shut ==> next == Next::Ask(Call::GetSecret)
            &&& s.purpose is Load && call is UnlockItem ==> next == Next::Ask(Call::GetSecret)
            &&& s.purpose is Load && call is GetSecret ==> next == Next::Ask(Call::Decode)
            &&& s.purpose is Load && call is Decode ==> next == Next::Done
            &&& s.purpose is Forget && call is Connect ==> next == Next::Ask(Call::Search)
            &&& s.purpose is Forget && call is Search ==> next == Next::Ask(Call::Delete)
            &&& s.purpose is Forget && call is Delete ==> next == Next::Done
        }),
{
}

/// The item that is read is an unlocked one wherever there is one, and the last of them;
/// without any item there is no identity. What the item is known by does not change.
pub proof fn lemma_which_item_is_read(unlocked: usize, locked: usize, r: Result<Choice, StorageError>)
    requires
        call_ensures(choose_item, (unlocked, locked), r),
    ensures
        unlocked > 0 ==> r == Ok::<Choice, StorageError>(Choice::Unlocked((unlocked - 1) as usize)),
        unlocked == 0 && locked > 0 ==> r == Ok::<Choice, StorageError>(
            Choice::Locked((locked - 1) as usize),
        ),
        unlocked == 0 && locked == 0 ==> r == Err::<Choice, StorageError>(StorageError::NotFound),
        SCHEMA@ == "com.vortex.identity.v1"@,
        VERSION@ == "1"@,
        LABEL@ == "Vortex V1 identity"@,
        CONTENT_TYPE@ == "application/x-vortex-identity-v1"@,
{
}

} // verus!
