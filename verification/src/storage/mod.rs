//! Where secrets and trusted peers are kept.
//!
//! A backend is either asked at once (the in-memory store) or stands for a
//! service of the desktop: a credential vault with named blobs, or a keyring
//! that may be locked. What the library decides about them is the same: what a
//! record looks like, under which name it lies, and what a failure means.

pub mod credential_names;
pub mod peers;
pub mod secret_service;
pub mod windows_credentials;

use vstd::prelude::*;

verus! {

/// Why a store did not answer.
#[derive(Debug, Clone, PartialEq, Eq)]
pub enum StorageError<S = String> {
    /// Nothing is stored there.
    NotFound,
    /// The backend failed.
    Backend(S),
    /// The keyring is locked, and stayed so.
    Locked(S),
}

/// What a store answers.
pub type StorageResult<T> = Result<T, StorageError>;

impl View for StorageError {
    type V = StorageError<Seq<char>>;

    open spec fn view(&self) -> StorageError<Seq<char>> {
        match self {
            StorageError::NotFound => StorageError::NotFound,
            StorageError::Backend(m) => StorageError::Backend(m@),
            StorageError::Locked(m) => StorageError::Locked(m@),
        }
    }
}

/// What an answer says.
pub open spec fn outcome<T>(r: Result<T, StorageError>) -> Result<T, StorageError<Seq<char>>> {
    match r {
        Ok(v) => Ok(v),
        Err(e) => Err(e@),
    }
}

/// What an answer says, with its value taken by its view.
pub open spec fn outcome_view<T: View>(r: Result<T, StorageError>) -> Result<
    T::V,
    StorageError<Seq<char>>,
> {
    match r {
        Ok(v) => Ok(v@),
        Err(e) => Err(e@),
    }
}

/// The text of an error, for the log.
pub open spec fn error_text(e: StorageError<Seq<char>>) -> Seq<char> {
    match e {
        StorageError::NotFound => "not found"@,
        StorageError::Backend(m) => "backend error: "@ + m,
        StorageError::Locked(m) => "keyring locked: "@ + m,
    }
}

impl StorageError {
    /// The text of this error, for the log.
    pub fn text(&self) -> (r: String)
        ensures
            r@ == error_text(self@),
    {
        match self {
            StorageError::NotFound => "not found".to_string(),
            StorageError::Backend(m) => {
                let mut r = "backend error: ".to_string();
                r.append(m.as_str());
                r
            },
            StorageError::Locked(m) => {
                let mut r = "keyring locked: ".to_string();
                r.append(m.as_str());
                r
            },
        }
    }
}

/// The kind of device that an identity was made for.
#[derive(Debug, Clone, Copy, PartialEq, Eq, Structural)]
pub enum Platform {
    Linux,
    Windows,
    Android,
}

/// The identity of this device: who it is, and the key pair that proves it.
#[derive(Clone, Copy, PartialEq, Eq)]
pub struct IdentityRecord {
    pub platform: Platform,
    pub device_id: [u8; 16],
    pub static_priv: [u8; 32],
    pub static_pub: [u8; 32],
    /// Seconds since the epoch.
    pub created_at: u64,
}

impl View for IdentityRecord {
    type V = IdentityRecord;

    open spec fn view(&self) -> IdentityRecord {
        *self
    }
}

/// A backend that holds the identity of this device, as a value of `R`.
pub trait IdentityStore<R: View>: Sized {
    /// What loading from this store gives.
    spec fn loads(&self) -> Result<R::V, StorageError<Seq<char>>>;

    /// Writing to this store is bound to succeed.
    spec fn writable(&self) -> bool;

    /// Keeping `v` may turn this store into `after` and answer `r`.
    spec fn saves(&self, v: R::V, after: Self, r: Result<(), StorageError<Seq<char>>>) -> bool;

    /// Keeps `record`, in place of what was kept before.
    fn save(&mut self, record: &R) -> (r: StorageResult<()>)
        ensures
            old(self).saves(record@, *final(self), outcome(r)),
            r is Ok ==> final(self).loads() == Ok::<R::V, StorageError<Seq<char>>>(record@),
            old(self).writable() ==> r is Ok && final(self).writable(),
    ;

    /// The record that is kept.
    fn load(&self) -> (r: StorageResult<R>)
        ensures
            outcome_view(r) == self.loads(),
    ;

    /// Forgets the record. That there is none is no failure.
    fn forget(&mut self) -> (r: StorageResult<()>)
        ensures
            r is Ok ==> final(self).loads() == Err::<R::V, StorageError<Seq<char>>>(
                StorageError::NotFound,
            ),
            old(self).writable() ==> r is Ok && final(self).writable(),
    ;

    /// Whether a record can be loaded.
    fn is_present(&self) -> (r: bool)
        ensures
            r == self.loads() is Ok,
    {
        match self.load() {
            Ok(_) => true,
            Err(_) => false,
        }
    }
}

/// The identity in `store`, or, where there is none yet, `fresh`, which is then
/// kept. Any other failure is handed on, so that a backend that is merely out of
/// reach never costs the device its identity.
pub fn load_or_generate<R: View, S: IdentityStore<R>>(store: &mut S, fresh: R) -> (r: StorageResult<R>)
    ensures
        old(store).loads() is Ok ==> outcome_view(r) == old(store).loads() && *final(store) == *old(
            store,
        ),
        old(store).loads() matches Err(e) ==> {
            if e is NotFound {
                &&& exists|c: Result<(), StorageError<Seq<char>>>|
                    {
                        &&& #[trigger] old(store).saves(fresh@, *final(store), c)
                        &&& match c {
                            Ok(_) => outcome_view(r) == Ok::<R::V, StorageError<Seq<char>>>(fresh@)
                                && final(store).loads() == Ok::<R::V, StorageError<Seq<char>>>(
                                fresh@,
                            ),
                            Err(e) => outcome_view(r) == Err::<R::V, StorageError<Seq<char>>>(e),
                        }
                    }
                &&& old(store).writable() ==> r is Ok
            } else {
                outcome_view(r) == old(store).loads() && *final(store) == *old(store)
            }
        },
{
    match store.load() {
        Ok(rec) => Ok(rec),
        Err(StorageError::NotFound) => {
            match store.save(&fresh) {
                Ok(_) => Ok(fresh),
                Err(e) => Err(e),
            }
        },
        Err(e) => Err(e),
    }
}

/// A store that lives as long as the process does.
pub struct InMemoryIdentityStore {
    inner: Option<IdentityRecord>,
}

impl View for InMemoryIdentityStore {
    type V = Option<IdentityRecord>;

    closed spec fn view(&self) -> Option<IdentityRecord> {
        self.inner
    }
}

impl InMemoryIdentityStore {
    /// A store without a record.
    pub fn new() -> (r: Self)
        ensures
            r@ == None::<IdentityRecord>,
    {
        InMemoryIdentityStore { inner: None }
    }
}

impl Default for InMemoryIdentityStore {
    fn default() -> (r: Self)
        ensures
            r@ == None::<IdentityRecord>,
    {
        InMemoryIdentityStore::new()
    }
}

impl Clone for InMemoryIdentityStore {
    /// A store that holds what this one holds now. From then on they are two: what
    /// is saved in one of them is not seen in the other.
    fn clone(&self) -> (r: Self)
        ensures
            r@ == self@,
            r.loads() == self.loads(),
    {
        InMemoryIdentityStore { inner: self.inner }
    }
}

impl IdentityStore<IdentityRecord> for InMemoryIdentityStore {
    open spec fn loads(&self) -> Result<IdentityRecord, StorageError<Seq<char>>> {
        match self@ {
            Some(rec) => Ok(rec),
            None => Err(StorageError::NotFound),
        }
    }

    open spec fn writable(&self) -> bool {
        true
    }

    open spec fn saves(
        &self,
        v: IdentityRecord,
        after: Self,
        r: Result<(), StorageError<Seq<char>>>,
    ) -> bool {
        r is Ok && after@ == Some(v)
    }

    fn save(&mut self, record: &IdentityRecord) -> (r: StorageResult<()>) {
        self.inner = Some(*record);
        Ok(())
    }

    fn load(&self) -> (r: StorageResult<IdentityRecord>) {
        match self.inner {
            Some(rec) => Ok(rec),
            None => Err(StorageError::NotFound),
        }
    }

    fn forget(&mut self) -> (r: StorageResult<()>)
        ensures
            final(self)@ == None::<IdentityRecord>,
    {
        self.inner = None;
        Ok(())
    }
}

/// What was saved is what is loaded, from the store and from a clone of it, until
/// it is forgotten; before and afterwards there is nothing.
pub proof fn lemma_kept_until_forgotten(
    fresh: InMemoryIdentityStore,
    kept: InMemoryIdentityStore,
    copy: InMemoryIdentityStore,
    emptied: InMemoryIdentityStore,
    record: IdentityRecord,
)
    requires
        fresh@ is None,
        fresh.saves(record, kept, Ok(())),
        copy@ == kept@,
        emptied@ is None,
    ensures
        fresh.loads() == Err::<IdentityRecord, StorageError<Seq<char>>>(StorageError::NotFound),
        kept.loads() == Ok::<IdentityRecord, StorageError<Seq<char>>>(record),
        copy.loads() == kept.loads(),
        emptied.loads() == fresh.loads(),
{
}

/// What an error says.
pub proof fn lemma_errors_have_a_text(e: &StorageError, r: String)
    requires
        call_ensures(StorageError::text, (e,), r),
    ensures
        e@ is NotFound ==> r@ == "not found"@,
        e@ is Backend ==> r@ == "backend error: "@ + e@->Backend_0,
        e@ is Locked ==> r@ == "keyring locked: "@ + e@->Locked_0,
{
}

/// An identity that is there is used, and is never replaced; where there is none, the fresh one
/// is used and kept, so that the next start uses it too.
pub proof fn lemma_identity_is_made_once(
    a: &mut InMemoryIdentityStore,
    fresh: IdentityRecord,
    first: StorageResult<IdentityRecord>,
    b: &mut InMemoryIdentityStore,
    other: IdentityRecord,
    second: StorageResult<IdentityRecord>,
)
    requires
        call_ensures(load_or_generate::<IdentityRecord, InMemoryIdentityStore>, (a, fresh), first),
        *old(b) == *final(a),
        call_ensures(load_or_generate::<IdentityRecord, InMemoryIdentityStore>, (b, other), second),
    ensures
        old(a)@ is Some ==> first == Ok::<IdentityRecord, StorageError>(old(a)@->0) && final(a)@ == old(
            a,
        )@,
        old(a)@ is None ==> first == Ok::<IdentityRecord, StorageError>(fresh) && final(a)@ == Some(
            fresh,
        ),
        second == first,
{
}

} // verus!
