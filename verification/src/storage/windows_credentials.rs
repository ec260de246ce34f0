//! Identity and trusted peers in a credential vault.
//!
//! The vault of the desktop holds blobs under names. A `Vault` is what was read
//! from it; what a store changes in its vault is what is then written back.

use vstd::prelude::*;
use vstd::utf8;

use crate::codec;
use crate::codec::{copy_bytes, utf8_text};
use crate::storage;
use crate::storage::credential_names;
use crate::storage::credential_names::{decode_u64, encode_u64, peer_from_target, peer_target};
use crate::storage::credential_names::{
    IDENTITY_TARGET, SUB_AUDIO_IN, SUB_AUDIO_OUT, SUB_BONDED, SUB_COUNTER,
};
use crate::storage::peers;
use crate::storage::peers::{PeerStore, TrustedPeer, TrustedPeerView};
use crate::storage::{IdentityStore, StorageError, StorageResult};
use crate::text;
use crate::text::{chars_of, same_text};

verus! {

/// Named blobs, in the order in which the vault lists them.
pub struct Vault {
    pub entries: Vec<(String, Vec<u8>)>,
}

/// What a list of named blobs says.
pub open spec fn entry_views(v: Seq<(String, Vec<u8>)>) -> Seq<(Seq<char>, Seq<u8>)> {
    v.map_values(|e: (String, Vec<u8>)| (e.0@, e.1@))
}

impl View for Vault {
    type V = Seq<(Seq<char>, Seq<u8>)>;

    open spec fn view(&self) -> Seq<(Seq<char>, Seq<u8>)> {
        entry_views(self.entries@)
    }
}

/// The blob under the name `target`.
pub open spec fn lookup(v: Seq<(Seq<char>, Seq<u8>)>, target: Seq<char>) -> Option<Seq<u8>>
    decreases v.len(),
{
    if v.len() == 0 {
        None
    } else if v[0].0 == target {
        Some(v[0].1)
    } else {
        lookup(v.drop_first(), target)
    }
}

/// The vault once `blob` lies under the name `target`.
pub open spec fn written(v: Seq<(Seq<char>, Seq<u8>)>, target: Seq<char>, blob: Seq<u8>) -> Seq<
    (Seq<char>, Seq<u8>),
>
    decreases v.len(),
{
    if v.len() == 0 {
        seq![(target, blob)]
    } else if v[0].0 == target {
        seq![(target, blob)] + v.drop_first()
    } else {
        seq![v[0]] + written(v.drop_first(), target, blob)
    }
}

/// The vault once nothing lies under the name `target`.
pub open spec fn deleted(v: Seq<(Seq<char>, Seq<u8>)>, target: Seq<char>) -> Seq<
    (Seq<char>, Seq<u8>),
>
    decreases v.len(),
{
    if v.len() == 0 {
        v
    } else if v[0].0 == target {
        deleted(v.drop_first(), target)
    } else {
        seq![v[0]] + deleted(v.drop_first(), target)
    }
}

/// What is written is what is read, and no other name is touched.
pub proof fn lemma_write(
    v: Seq<(Seq<char>, Seq<u8>)>,
    target: Seq<char>,
    blob: Seq<u8>,
    other: Seq<char>,
)
    ensures
        lookup(written(v, target, blob), target) == Some(blob),
        other != target ==> lookup(written(v, target, blob), other) == lookup(v, other),
    decreases v.len(),
{
    let w = written(v, target, blob);
    if v.len() == 0 {
        assert(w.drop_first() =~= v);
        assert(lookup(v, other) is None);
    } else if v[0].0 == target {
        assert(w.drop_first() =~= v.drop_first());
    } else {
        lemma_write(v.drop_first(), target, blob, other);
        assert(w.drop_first() =~= written(v.drop_first(), target, blob));
    }
}

/// What is deleted is gone, and no other name is touched.
pub proof fn lemma_delete(v: Seq<(Seq<char>, Seq<u8>)>, target: Seq<char>, other: Seq<char>)
    ensures
        lookup(deleted(v, target), target) is None,
        other != target ==> lookup(deleted(v, target), other) == lookup(v, other),
    decreases v.len(),
{
    if v.len() > 0 {
        lemma_delete(v.drop_first(), target, other);
        if v[0].0 != target {
            assert(deleted(v, target).drop_first() =~= deleted(v.drop_first(), target));
        }
    }
}

/// Writing at the first place that has the name, or behind everything.
proof fn lemma_written_at(
    v: Seq<(Seq<char>, Seq<u8>)>,
    target: Seq<char>,
    blob: Seq<u8>,
    at: int,
)
    requires
        0 <= at <= v.len(),
        forall|j: int| 0 <= j < at ==> (#[trigger] v[j]).0 != target,
        at < v.len() ==> v[at].0 == target,
    ensures
        at < v.len() ==> written(v, target, blob) == v.update(at, (target, blob)),
        at == v.len() ==> written(v, target, blob) == v.push((target, blob)),
    decreases v.len(),
{
    if at == 0 {
        if v.len() > 0 {
            assert(written(v, target, blob) =~= v.update(0, (target, blob)));
        } else {
            assert(written(v, target, blob) =~= v.push((target, blob)));
        }
    } else {
        let rest = v.drop_first();
        assert forall|j: int| 0 <= j < at - 1 implies (#[trigger] rest[j]).0 != target by {
            assert(v[j + 1].0 != target);
        }
        assert(v[0].0 != target);
        lemma_written_at(rest, target, blob, at - 1);
        if at < v.len() {
            assert(written(v, target, blob) =~= v.update(at, (target, blob)));
        } else {
            assert(written(v, target, blob) =~= v.push((target, blob)));
        }
    }
}

/// The blob is found at the first place that has the name.
proof fn lemma_lookup_at(v: Seq<(Seq<char>, Seq<u8>)>, target: Seq<char>, at: int)
    requires
        0 <= at <= v.len(),
        forall|j: int| 0 <= j < at ==> (#[trigger] v[j]).0 != target,
        at < v.len() ==> v[at].0 == target,
    ensures
        at < v.len() ==> lookup(v, target) == Some(v[at].1),
        at == v.len() ==> lookup(v, target) is None,
    decreases v.len(),
{
    if at > 0 {
        let rest = v.drop_first();
        assert forall|j: int| 0 <= j < at - 1 implies (#[trigger] rest[j]).0 != target by {
            assert(v[j + 1].0 != target);
        }
        assert(v[0].0 != target);
        lemma_lookup_at(rest, target, at - 1);
    }
}

impl Vault {
    /// A vault without credentials.
    pub fn new() -> (r: Self)
        ensures
            r@ == Seq::<(Seq<char>, Seq<u8>)>::empty(),
    {
        let r = Vault { entries: Vec::new() };
        assert(r@ =~= Seq::<(Seq<char>, Seq<u8>)>::empty());
        r
    }

    /// The first place that has the name, or the number of places.
    fn place_of(&self, target: &str) -> (at: usize)
        ensures
            at <= self@.len() == self.entries@.len(),
            forall|j: int| 0 <= j < at ==> (#[trigger] self@[j]).0 != target@,
            at < self@.len() ==> self@[at as int].0 == target@,
    {
        let mut i: usize = 0;
        while i < self.entries.len()
            invariant
                i <= self.entries@.len(),
                forall|j: int| 0 <= j < i ==> (#[trigger] self@[j]).0 != target@,
            decreases self.entries.len() - i,
        {
            if same_text(self.entries[i].0.as_str(), target) {
                return i;
            }
            i += 1;
        }
        i
    }

    /// Puts `blob` under the name `target`, in place of what lay there.
    pub fn write(&mut self, target: &str, blob: &Vec<u8>)
        ensures
            final(self)@ == written(old(self)@, target@, blob@),
    {
        let at: usize = self.place_of(target);
        let entry = (target.to_string(), copy_bytes(blob));
        proof {
            lemma_written_at(self@, target@, blob@, at as int);
        }
        if at < self.entries.len() {
            self.entries.set(at, entry);
            assert(self@ =~= old(self)@.update(at as int, (target@, blob@)));
        } else {
            self.entries.push(entry);
            assert(self@ =~= old(self)@.push((target@, blob@)));
        }
    }

    /// The blob under the name `target`.
    pub fn read(&self, target: &str) -> (r: Option<Vec<u8>>)
        ensures
            match lookup(self@, target@) {
                Some(b) => r is Some && r->0@ == b,
                None => r is None,
            },
    {
        let at: usize = self.place_of(target);
        proof {
            lemma_lookup_at(self@, target@, at as int);
        }
        if at < self.entries.len() {
            Some(copy_bytes(&self.entries[at].1))
        } else {
            None
        }
    }

    /// Takes away what lies under the name `target`. That there is nothing is no
    /// failure.
    pub fn delete(&mut self, target: &str)
        ensures
            final(self)@ == deleted(old(self)@, target@),
    {
        let mut kept: Vec<(String, Vec<u8>)> = Vec::new();
        let mut i: usize = 0;
        assert(self@.skip(0) =~= self@);
        assert(entry_views(kept@) + deleted(self@, target@) =~= deleted(self@, target@));
        while i < self.entries.len()
            invariant
                i <= self.entries@.len(),
                self.entries == old(self).entries,
                entry_views(kept@) + deleted(self@.skip(i as int), target@) == deleted(
                    old(self)@,
                    target@,
                ),
            decreases self.entries.len() - i,
        {
            let ghost before = entry_views(kept@);
            let ghost rest = self@.skip(i as int);
            assert(rest.drop_first() =~= self@.skip(i + 1));
            assert(rest[0] == self@[i as int]);
            if !same_text(self.entries[i].0.as_str(), target) {
                let name = self.entries[i].0.as_str().to_string();
                kept.push((name, copy_bytes(&self.entries[i].1)));
                assert(entry_views(kept@) =~= before.push(rest[0]));
                assert(before.push(rest[0]) + deleted(rest.drop_first(), target@) =~= before + (seq![
                    rest[0],
                ] + deleted(rest.drop_first(), target@)));
            }
            i += 1;
        }
        assert(self@.skip(i as int) =~= Seq::<(Seq<char>, Seq<u8>)>::empty());
        assert(entry_views(kept@) + Seq::<(Seq<char>, Seq<u8>)>::empty() =~= entry_views(kept@));
        self.entries = kept;
    }
}

/// The identity of this device in a vault, as the bytes of its record.
pub struct WindowsIdentityStore {
    pub vault: Vault,
}

impl IdentityStore<Vec<u8>> for WindowsIdentityStore {
    open spec fn loads(&self) -> Result<Seq<u8>, StorageError<Seq<char>>> {
        match lookup(self.vault@, IDENTITY_TARGET@) {
            Some(b) => Ok(b),
            None => Err(StorageError::NotFound),
        }
    }

    open spec fn writable(&self) -> bool {
        true
    }

    open spec fn saves(
        &self,
        v: Seq<u8>,
        after: Self,
        r: Result<(), StorageError<Seq<char>>>,
    ) -> bool {
        r is Ok && after.vault@ == written(self.vault@, IDENTITY_TARGET@, v)
    }

    fn save(&mut self, record: &Vec<u8>) -> (r: StorageResult<()>)
    {
        self.vault.write(IDENTITY_TARGET, record);
        proof {
            lemma_write(old(self).vault@, IDENTITY_TARGET@, record@, IDENTITY_TARGET@);
        }
        Ok(())
    }

    fn load(&self) -> (r: StorageResult<Vec<u8>>) {
        match self.vault.read(IDENTITY_TARGET) {
            Some(b) => Ok(b),
            None => Err(StorageError::NotFound),
        }
    }

    fn forget(&mut self) -> (r: StorageResult<()>)
        ensures
            final(self).vault@ == deleted(old(self).vault@, IDENTITY_TARGET@),
    {
        self.vault.delete(IDENTITY_TARGET);
        proof {
            lemma_delete(old(self).vault@, IDENTITY_TARGET@, IDENTITY_TARGET@);
        }
        Ok(())
    }
}

/// Trusted peers in a vault.
pub struct WindowsPeerStore {
    pub vault: Vault,
}

/// The name of what hangs off a peer's record under `sub`.
pub open spec fn child_name(key: Seq<u8>, sub: Seq<char>) -> Seq<char> {
    credential_names::peer_name(key) + sub
}

/// The counter under a name: zero when there is none.
pub open spec fn counter_under(v: Seq<(Seq<char>, Seq<u8>)>, target: Seq<char>) -> Result<
    u64,
    StorageError<Seq<char>>,
> {
    match lookup(v, target) {
        Some(b) => credential_names::counter_in(b),
        None => Ok(0),
    }
}

/// The peers of a vault, in its order: the records that can be read. A record
/// that cannot does not hide the others.
pub open spec fn peers_in(v: Seq<(Seq<char>, Seq<u8>)>) -> Seq<TrustedPeerView>
    decreases v.len(),
{
    if v.len() == 0 {
        Seq::empty()
    } else {
        let rest = peers_in(v.drop_first());
        match (credential_names::named_peer(v[0].0), peers::peer_in(v[0].1)) {
            (Some(_), Ok(p)) => seq![p] + rest,
            _ => rest,
        }
    }
}

/// The vault without a peer and all that hangs off it.
pub open spec fn forgotten(v: Seq<(Seq<char>, Seq<u8>)>, key: Seq<u8>) -> Seq<
    (Seq<char>, Seq<u8>),
> {
    let v0 = deleted(v, credential_names::peer_name(key));
    let v1 = deleted(v0, child_name(key, SUB_COUNTER@));
    let v2 = deleted(v1, child_name(key, SUB_AUDIO_OUT@));
    let v3 = deleted(v2, child_name(key, SUB_AUDIO_IN@));
    deleted(v3, child_name(key, SUB_BONDED@))
}

/// The name of what hangs off a peer's record under `sub`.
fn child_target(key: &[u8; 32], sub: &str) -> (r: String)
    ensures
        r@ == child_name(key@, sub@),
{
    let mut r = peer_target(key);
    r.append(sub);
    r
}

impl WindowsPeerStore {
    /// The counter under a name: zero when there is none.
    fn read_counter(&self, target: &str) -> (r: StorageResult<u64>)
        ensures
            storage::outcome(r) == counter_under(self.vault@, target@),
    {
        match self.vault.read(target) {
            Some(b) => decode_u64(b.as_slice()),
            None => Ok(0),
        }
    }
}

impl PeerStore for WindowsPeerStore {
    open spec fn record(&self, key: Seq<u8>) -> Result<TrustedPeerView, StorageError<Seq<char>>> {
        match lookup(self.vault@, credential_names::peer_name(key)) {
            Some(b) => peers::peer_in(b),
            None => Err(StorageError::NotFound),
        }
    }

    open spec fn peers(&self) -> Result<Seq<TrustedPeerView>, StorageError<Seq<char>>> {
        Ok(peers_in(self.vault@))
    }

    open spec fn in_nonce(&self, key: Seq<u8>) -> Result<u64, StorageError<Seq<char>>> {
        counter_under(self.vault@, child_name(key, SUB_AUDIO_IN@))
    }

    open spec fn out_nonce(&self, key: Seq<u8>) -> Result<u64, StorageError<Seq<char>>> {
        counter_under(self.vault@, child_name(key, SUB_AUDIO_OUT@))
    }

    open spec fn counter(&self, key: Seq<u8>) -> Result<u64, StorageError<Seq<char>>> {
        counter_under(self.vault@, child_name(key, SUB_COUNTER@))
    }

    open spec fn bonded(&self, key: Seq<u8>) -> Option<Seq<char>> {
        match lookup(self.vault@, child_name(key, SUB_BONDED@)) {
            Some(b) => if utf8::valid_utf8(b) && utf8::decode_utf8(b).len() > 0 {
                Some(utf8::decode_utf8(b))
            } else {
                None
            },
            None => None,
        }
    }

    /// The greater of `nonce` and what was kept before is kept, so that it does not
    /// matter how often, or in which order, a nonce is committed.
    open spec fn commits(
        &self,
        key: Seq<u8>,
        nonce: u64,
        after: Self,
        r: Result<(), StorageError<Seq<char>>>,
    ) -> bool {
        match self.in_nonce(key) {
            Ok(seen) => r is Ok && after.vault@ == written(
                self.vault@,
                child_name(key, SUB_AUDIO_IN@),
                credential_names::be_bytes(peers::greater_of(seen, nonce)),
            ),
            Err(e) => r == Err::<(), StorageError<Seq<char>>>(e) && after == *self,
        }
    }

    fn save(&mut self, peer: &TrustedPeer) -> (r: StorageResult<()>)
        ensures
            r is Ok,
            final(self).vault@ == written(
                old(self).vault@,
                credential_names::peer_name(peer@.peer_static_pub),
                peers::record_of(peer@),
            ),
    {
        let target = peer_target(&peer.peer_static_pub);
        let blob = peer.encode();
        self.vault.write(target.as_str(), &blob);
        proof {
            let v = old(self).vault@;
            let p = peer@;
            lemma_write(v, target@, blob@, target@);
            if peers::is_fit(p.peer_name) {
                peers::lemma_record_round_trip(p);
                lemma_saved_peer_is_listed(v, p);
            }
            lemma_save_spares_the_rest(v, p.peer_static_pub, blob@);
        }
        Ok(())
    }

    fn load(&self, peer_static_pub: &[u8; 32]) -> (r: StorageResult<TrustedPeer>) {
        let target = peer_target(peer_static_pub);
        match self.vault.read(target.as_str()) {
            Some(b) => TrustedPeer::decode(b.as_slice()),
            None => Err(StorageError::NotFound),
        }
    }

    fn list(&self) -> (r: StorageResult<Vec<TrustedPeer>>)
        ensures
            r is Ok && peers::peer_views(r->Ok_0@) == peers_in(self.vault@),
    {
        let mut out: Vec<TrustedPeer> = Vec::new();
        let mut i: usize = 0;
        assert(self.vault@.skip(0) =~= self.vault@);
        assert(peers::peer_views(out@) + peers_in(self.vault@) =~= peers_in(self.vault@));
        while i < self.vault.entries.len()
            invariant
                i <= self.vault.entries@.len(),
                peers::peer_views(out@) + peers_in(self.vault@.skip(i as int)) == peers_in(self.vault@),
            decreases self.vault.entries.len() - i,
        {
            let ghost before = peers::peer_views(out@);
            let ghost rest = self.vault@.skip(i as int);
            assert(rest.drop_first() =~= self.vault@.skip(i + 1));
            assert(rest[0] == self.vault@[i as int]);
            if peer_from_target(self.vault.entries[i].0.as_str()).is_some() {
                match TrustedPeer::decode(self.vault.entries[i].1.as_slice()) {
                    Ok(p) => {
                        let ghost pv = p@;
                        out.push(p);
                        assert(peers::peer_views(out@) =~= before.push(pv));
                        assert(before.push(pv) + peers_in(rest.drop_first()) =~= before + (seq![pv]
                            + peers_in(rest.drop_first())));
                    },
                    Err(_) => {},
                }
            }
            i += 1;
        }
        assert(self.vault@.skip(i as int) =~= Seq::<(Seq<char>, Seq<u8>)>::empty());
        assert(peers::peer_views(out@) + Seq::<TrustedPeerView>::empty() =~= peers::peer_views(out@));
        Ok(out)
    }

    fn forget(&mut self, peer_static_pub: &[u8; 32]) -> (r: StorageResult<()>)
        ensures
            r is Ok,
            final(self).vault@ == forgotten(old(self).vault@, peer_static_pub@),
    {
        let base = peer_target(peer_static_pub);
        self.vault.delete(base.as_str());
        let counter = child_target(peer_static_pub, SUB_COUNTER);
        self.vault.delete(counter.as_str());
        let out_nonce = child_target(peer_static_pub, SUB_AUDIO_OUT);
        self.vault.delete(out_nonce.as_str());
        let in_nonce = child_target(peer_static_pub, SUB_AUDIO_IN);
        self.vault.delete(in_nonce.as_str());
        let bonded = child_target(peer_static_pub, SUB_BONDED);
        self.vault.delete(bonded.as_str());
        proof {
            let v = old(self).vault@;
            let key = peer_static_pub@;
            lemma_forget_leaves_nothing(v, key);
            lemma_forget_lists_no_more(v, key);
            assert forall|k: Seq<u8>| k.len() == 32 && k != key implies #[trigger] self.record(k)
                == old(self).record(k) && self.counter(k) == old(self).counter(k)
                && self.out_nonce(k) == old(self).out_nonce(k) && self.in_nonce(k) == old(
                self,
            ).in_nonce(k) && self.bonded(k) == old(self).bonded(k) by {
                lemma_names_apart(key, k);
                lemma_forget_spares_the_rest(v, key, credential_names::peer_name(k));
                lemma_forget_spares_the_rest(v, key, child_name(k, SUB_COUNTER@));
                lemma_forget_spares_the_rest(v, key, child_name(k, SUB_AUDIO_OUT@));
                lemma_forget_spares_the_rest(v, key, child_name(k, SUB_AUDIO_IN@));
                lemma_forget_spares_the_rest(v, key, child_name(k, SUB_BONDED@));
            }
        }
        Ok(())
    }

    fn load_counter(&self, peer_static_pub: &[u8; 32]) -> (r: StorageResult<u64>) {
        let target = child_target(peer_static_pub, SUB_COUNTER);
        self.read_counter(target.as_str())
    }

    fn bump_counter(&mut self, peer_static_pub: &[u8; 32], peer_seen: u64) -> (r: StorageResult<
        u64,
    >)
        ensures
            match counter_under(old(self).vault@, child_name(peer_static_pub@, SUB_COUNTER@)) {
                Ok(local) => {
                    let next = peers::next_of(peers::greater_of(local, peer_seen));
                    r == Ok::<u64, StorageError>(next) && final(self).vault@ == written(
                        old(self).vault@,
                        child_name(peer_static_pub@, SUB_COUNTER@),
                        credential_names::be_bytes(next),
                    )
                },
                Err(e) => storage::outcome(r) == Err::<u64, StorageError<Seq<char>>>(e)
                    && final(self).vault@ == old(self).vault@,
            },
    {
        let target = child_target(peer_static_pub, SUB_COUNTER);
        let local: u64 = match self.read_counter(target.as_str()) {
            Ok(n) => n,
            Err(e) => return Err(e),
        };
        let high: u64 = if local < peer_seen {
            peer_seen
        } else {
            local
        };
        let next: u64 = high.saturating_add(1);
        self.vault.write(target.as_str(), &encode_u64(next));
        proof {
            lemma_counter_is_kept(old(self).vault@, target@, next, target@);
        }
        Ok(next)
    }

    fn load_bonded_addr(&self, peer_static_pub: &[u8; 32]) -> (r: StorageResult<Option<String>>)
        ensures
            r is Ok && text::maybe(r->Ok_0) == self.bonded(peer_static_pub@),
    {
        let target = child_target(peer_static_pub, SUB_BONDED);
        match self.vault.read(target.as_str()) {
            Some(b) => match utf8_text(b.as_slice()) {
                Some(s) => if chars_of(s.as_str()).len() > 0 {
                    Ok(Some(s))
                } else {
                    Ok(None)
                },
                None => Ok(None),
            },
            None => Ok(None),
        }
    }

    fn save_bonded_addr(&mut self, peer_static_pub: &[u8; 32], addr: &str) -> (r: StorageResult<()>)
        ensures
            r is Ok,
            final(self).vault@ == written(
                old(self).vault@,
                child_name(peer_static_pub@, SUB_BONDED@),
                utf8::encode_utf8(addr@),
            ),
    {
        let target = child_target(peer_static_pub, SUB_BONDED);
        let mut blob: Vec<u8> = Vec::new();
        blob.extend_from_slice(addr.as_bytes());
        assert(blob@ =~= utf8::encode_utf8(addr@));
        self.vault.write(target.as_str(), &blob);
        proof {
            lemma_bond_spares_the_rest(old(self).vault@, peer_static_pub@, blob@);
        }
        Ok(())
    }

    fn next_audio_out_nonce(&mut self, peer_static_pub: &[u8; 32]) -> (r: StorageResult<u64>)
        ensures
            match counter_under(old(self).vault@, child_name(peer_static_pub@, SUB_AUDIO_OUT@)) {
                Ok(last) => r == Ok::<u64, StorageError>(peers::next_of(last)) && final(self).vault@
                    == written(
                    old(self).vault@,
                    child_name(peer_static_pub@, SUB_AUDIO_OUT@),
                    credential_names::be_bytes(peers::next_of(last)),
                ),
                Err(e) => storage::outcome(r) == Err::<u64, StorageError<Seq<char>>>(e)
                    && final(self).vault@ == old(self).vault@,
            },
    {
        let target = child_target(peer_static_pub, SUB_AUDIO_OUT);
        let last: u64 = match self.read_counter(target.as_str()) {
            Ok(n) => n,
            Err(e) => return Err(e),
        };
        let next: u64 = last.saturating_add(1);
        self.vault.write(target.as_str(), &encode_u64(next));
        proof {
            lemma_counter_is_kept(old(self).vault@, target@, next, target@);
        }
        Ok(next)
    }

    fn load_audio_in_nonce(&self, peer_static_pub: &[u8; 32]) -> (r: StorageResult<u64>) {
        let target = child_target(peer_static_pub, SUB_AUDIO_IN);
        self.read_counter(target.as_str())
    }

    fn commit_audio_in_nonce(&mut self, peer_static_pub: &[u8; 32], nonce: u64) -> (r:
        StorageResult<()>) {
        let target = child_target(peer_static_pub, SUB_AUDIO_IN);
        let seen: u64 = match self.read_counter(target.as_str()) {
            Ok(n) => n,
            Err(e) => return Err(e),
        };
        let high: u64 = if seen < nonce {
            nonce
        } else {
            seen
        };
        self.vault.write(target.as_str(), &encode_u64(high));
        proof {
            lemma_counter_is_kept(old(self).vault@, target@, high, target@);
        }
        Ok(())
    }

    fn try_accept_audio_in_nonce(&mut self, peer_static_pub: &[u8; 32], nonce: u64) -> (r:
        StorageResult<bool>)
        ensures
            match old(self).in_nonce(peer_static_pub@) {
                Ok(seen) => r == Ok::<bool, StorageError>(nonce > seen) && final(self).in_nonce(
                    peer_static_pub@,
                ) == Ok::<u64, StorageError<Seq<char>>>(peers::greater_of(seen, nonce)),
                Err(e) => storage::outcome(r) == Err::<bool, StorageError<Seq<char>>>(e),
            },
    {
        let seen: u64 = match self.load_audio_in_nonce(peer_static_pub) {
            Ok(seen) => seen,
            Err(e) => return Err(e),
        };
        if nonce <= seen {
            return Ok(false);
        }
        match self.commit_audio_in_nonce(peer_static_pub, nonce) {
            Ok(_) => Ok(true),
            Err(e) => Err(e),
        }
    }
}

/// The names below a peer's record differ from it and from each other.
proof fn lemma_names_differ(key: Seq<u8>)
    ensures
        ({
            let base = credential_names::peer_name(key);
            let c = child_name(key, SUB_COUNTER@);
            let o = child_name(key, SUB_AUDIO_OUT@);
            let i = child_name(key, SUB_AUDIO_IN@);
            let b = child_name(key, SUB_BONDED@);
            &&& base != c && base != o && base != i && base != b
            &&& c != o && c != i && c != b
            &&& o != i && o != b
            &&& i != b
        }),
{
    reveal_strlit("/counter");
    reveal_strlit("/audio-out-nonce");
    reveal_strlit("/audio-in-nonce");
    reveal_strlit("/bonded-addr");
    let base = credential_names::peer_name(key);
    let n = base.len() as int;
    assert(child_name(key, SUB_COUNTER@).len() == n + 8);
    assert(child_name(key, SUB_AUDIO_OUT@).len() == n + 16);
    assert(child_name(key, SUB_AUDIO_IN@).len() == n + 15);
    assert(child_name(key, SUB_BONDED@).len() == n + 12);
}

/// The names that belong to two peers differ.
proof fn lemma_names_apart(key: Seq<u8>, other: Seq<u8>)
    requires
        key.len() == 32,
        other.len() == 32,
    ensures
        ({
            let n = credential_names::peer_name(key);
            &&& n.len() == credential_names::peer_name(other).len()
            &&& n != child_name(other, SUB_COUNTER@)
            &&& n != child_name(other, SUB_AUDIO_OUT@)
            &&& n != child_name(other, SUB_AUDIO_IN@)
            &&& n != child_name(other, SUB_BONDED@)
        }),
        key != other ==> {
            let subs = seq![Seq::<char>::empty(), SUB_COUNTER@, SUB_AUDIO_OUT@, SUB_AUDIO_IN@, SUB_BONDED@];
            &&& credential_names::peer_name(key) != credential_names::peer_name(other)
            &&& forall|i: int, j: int|
                #![trigger child_name(key, subs[i]), child_name(other, subs[j])]
                0 <= i < 5 && 0 <= j < 5 ==> child_name(key, subs[i]) != child_name(other, subs[j])
            &&& child_name(other, subs[0]) == credential_names::peer_name(other)
            &&& child_name(key, subs[0]) == credential_names::peer_name(key)
        },
{
    reveal_strlit("/counter");
    reveal_strlit("/audio-out-nonce");
    reveal_strlit("/audio-in-nonce");
    reveal_strlit("/bonded-addr");
    let a = credential_names::peer_name(key);
    let b = credential_names::peer_name(other);
    assert(a.len() == credential_names::PEER_PREFIX@.len() + 64);
    assert(b.len() == a.len());
    assert(child_name(other, SUB_COUNTER@).len() == b.len() + 8);
    assert(child_name(other, SUB_AUDIO_OUT@).len() == b.len() + 16);
    assert(child_name(other, SUB_AUDIO_IN@).len() == b.len() + 15);
    assert(child_name(other, SUB_BONDED@).len() == b.len() + 12);
    if key != other {
        credential_names::lemma_peer_name_round_trip(key);
        credential_names::lemma_peer_name_round_trip(other);
        assert(a != b);
        let subs = seq![
            Seq::<char>::empty(),
            SUB_COUNTER@,
            SUB_AUDIO_OUT@,
            SUB_AUDIO_IN@,
            SUB_BONDED@,
        ];
        assert(child_name(other, subs[0]) =~= b);
        assert(child_name(key, subs[0]) =~= a);
        assert forall|i: int, j: int|
            #![trigger child_name(key, subs[i]), child_name(other, subs[j])]
            0 <= i < 5 && 0 <= j < 5 implies child_name(key, subs[i]) != child_name(
            other,
            subs[j],
        ) by {
            if child_name(key, subs[i]) == child_name(other, subs[j]) {
                assert(child_name(key, subs[i]).take(a.len() as int) =~= a);
                assert(child_name(other, subs[j]).take(b.len() as int) =~= b);
            }
        }
    }
}

/// Keeping an address touches nothing but the address of that peer.
proof fn lemma_bond_spares_the_rest(v: Seq<(Seq<char>, Seq<u8>)>, key: Seq<u8>, blob: Seq<u8>)
    requires
        key.len() == 32,
    ensures
        ({
            let w = written(v, child_name(key, SUB_BONDED@), blob);
            forall|k: Seq<u8>| k.len() == 32 ==> {
                &&& lookup(w, #[trigger] credential_names::peer_name(k)) == lookup(
                    v,
                    credential_names::peer_name(k),
                )
                &&& lookup(w, child_name(k, SUB_COUNTER@)) == lookup(v, child_name(k, SUB_COUNTER@))
                &&& lookup(w, child_name(k, SUB_AUDIO_OUT@)) == lookup(
                    v,
                    child_name(k, SUB_AUDIO_OUT@),
                )
                &&& lookup(w, child_name(k, SUB_AUDIO_IN@)) == lookup(
                    v,
                    child_name(k, SUB_AUDIO_IN@),
                )
                &&& k != key ==> lookup(w, child_name(k, SUB_BONDED@)) == lookup(
                    v,
                    child_name(k, SUB_BONDED@),
                )
            }
        }),
{
    let name = child_name(key, SUB_BONDED@);
    let w = written(v, name, blob);
    assert forall|k: Seq<u8>| k.len() == 32 implies {
        &&& lookup(w, #[trigger] credential_names::peer_name(k)) == lookup(
            v,
            credential_names::peer_name(k),
        )
        &&& lookup(w, child_name(k, SUB_COUNTER@)) == lookup(v, child_name(k, SUB_COUNTER@))
        &&& lookup(w, child_name(k, SUB_AUDIO_OUT@)) == lookup(v, child_name(k, SUB_AUDIO_OUT@))
        &&& lookup(w, child_name(k, SUB_AUDIO_IN@)) == lookup(v, child_name(k, SUB_AUDIO_IN@))
        &&& k != key ==> lookup(w, child_name(k, SUB_BONDED@)) == lookup(
            v,
            child_name(k, SUB_BONDED@),
        )
    } by {
        lemma_names_apart(key, k);
        lemma_names_differ(key);
        lemma_write(v, name, blob, credential_names::peer_name(k));
        lemma_write(v, name, blob, child_name(k, SUB_COUNTER@));
        lemma_write(v, name, blob, child_name(k, SUB_AUDIO_OUT@));
        lemma_write(v, name, blob, child_name(k, SUB_AUDIO_IN@));
        lemma_write(v, name, blob, child_name(k, SUB_BONDED@));
    }
}

/// Saving a peer touches neither the records of others nor what hangs off any.
proof fn lemma_save_spares_the_rest(v: Seq<(Seq<char>, Seq<u8>)>, key: Seq<u8>, blob: Seq<u8>)
    requires
        key.len() == 32,
    ensures
        ({
            let w = written(v, credential_names::peer_name(key), blob);
            forall|k: Seq<u8>| k.len() == 32 ==> {
                &&& k != key ==> lookup(w, #[trigger] credential_names::peer_name(k)) == lookup(
                    v,
                    credential_names::peer_name(k),
                )
                &&& lookup(w, child_name(k, SUB_COUNTER@)) == lookup(v, child_name(k, SUB_COUNTER@))
                &&& lookup(w, child_name(k, SUB_AUDIO_OUT@)) == lookup(
                    v,
                    child_name(k, SUB_AUDIO_OUT@),
                )
                &&& lookup(w, child_name(k, SUB_AUDIO_IN@)) == lookup(
                    v,
                    child_name(k, SUB_AUDIO_IN@),
                )
                &&& lookup(w, child_name(k, SUB_BONDED@)) == lookup(v, child_name(k, SUB_BONDED@))
            }
        }),
{
    let name = credential_names::peer_name(key);
    let w = written(v, name, blob);
    assert forall|k: Seq<u8>| k.len() == 32 implies {
        &&& k != key ==> lookup(w, #[trigger] credential_names::peer_name(k)) == lookup(
            v,
            credential_names::peer_name(k),
        )
        &&& lookup(w, child_name(k, SUB_COUNTER@)) == lookup(v, child_name(k, SUB_COUNTER@))
        &&& lookup(w, child_name(k, SUB_AUDIO_OUT@)) == lookup(v, child_name(k, SUB_AUDIO_OUT@))
        &&& lookup(w, child_name(k, SUB_AUDIO_IN@)) == lookup(v, child_name(k, SUB_AUDIO_IN@))
        &&& lookup(w, child_name(k, SUB_BONDED@)) == lookup(v, child_name(k, SUB_BONDED@))
    } by {
        lemma_names_apart(key, k);
        lemma_write(v, name, blob, credential_names::peer_name(k));
        lemma_write(v, name, blob, child_name(k, SUB_COUNTER@));
        lemma_write(v, name, blob, child_name(k, SUB_AUDIO_OUT@));
        lemma_write(v, name, blob, child_name(k, SUB_AUDIO_IN@));
        lemma_write(v, name, blob, child_name(k, SUB_BONDED@));
    }
}

/// A peer that was saved is among those that are listed.
pub proof fn lemma_saved_peer_is_listed(v: Seq<(Seq<char>, Seq<u8>)>, p: TrustedPeerView)
    requires
        p.peer_static_pub.len() == 32,
        p.prs.len() == 32,
        peers::is_fit(p.peer_name),
    ensures
        peers_in(
            written(v, credential_names::peer_name(p.peer_static_pub), peers::record_of(p)),
        ).contains(p),
    decreases v.len(),
{
    let name = credential_names::peer_name(p.peer_static_pub);
    let w = written(v, name, peers::record_of(p));
    credential_names::lemma_peer_name_round_trip(p.peer_static_pub);
    peers::lemma_record_round_trip(p);
    if v.len() == 0 || v[0].0 == name {
        assert(w[0] == (name, peers::record_of(p)));
        assert(peers_in(w)[0] == p);
    } else {
        lemma_saved_peer_is_listed(v.drop_first(), p);
        assert(w.drop_first() =~= written(v.drop_first(), name, peers::record_of(p)));
        let rest = peers_in(w.drop_first());
        let i = choose|i: int| 0 <= i < rest.len() && rest[i] == p;
        if peers_in(w).len() == rest.len() {
            assert(peers_in(w)[i] == p);
        } else {
            assert(peers_in(w)[i + 1] == p);
        }
    }
}

/// Deleting what lies under a name lists no peer that was not listed before.
proof fn lemma_delete_lists_no_more(v: Seq<(Seq<char>, Seq<u8>)>, target: Seq<char>)
    ensures
        forall|p: TrustedPeerView| #[trigger]
            peers_in(deleted(v, target)).contains(p) ==> peers_in(v).contains(p),
    decreases v.len(),
{
    if v.len() > 0 {
        let tl = v.drop_first();
        let d = deleted(v, target);
        lemma_delete_lists_no_more(tl, target);
        assert forall|p: TrustedPeerView| #[trigger] peers_in(d).contains(p) implies peers_in(
            v,
        ).contains(p) by {
            let before = peers_in(tl);
            let i = choose|i: int| 0 <= i < peers_in(d).len() && peers_in(d)[i] == p;
            if v[0].0 == target {
                assert(peers_in(deleted(tl, target)).contains(p));
            } else {
                assert(d.drop_first() =~= deleted(tl, target));
                assert(d[0] == v[0]);
                let rest = peers_in(deleted(tl, target));
                if peers_in(d).len() == rest.len() {
                    assert(rest[i] == p);
                } else if i > 0 {
                    assert(rest[i - 1] == p);
                } else {
                    assert(peers_in(v)[0] == p);
                }
            }
            if before.contains(p) {
                let k = choose|k: int| 0 <= k < before.len() && before[k] == p;
                if peers_in(v).len() == before.len() {
                    assert(peers_in(v)[k] == p);
                } else {
                    assert(peers_in(v)[k + 1] == p);
                }
            }
        }
    }
}

proof fn lemma_forget_lists_no_more(v: Seq<(Seq<char>, Seq<u8>)>, key: Seq<u8>)
    ensures
        forall|p: TrustedPeerView| #[trigger]
            peers_in(forgotten(v, key)).contains(p) ==> peers_in(v).contains(p),
{
    let v0 = deleted(v, credential_names::peer_name(key));
    let v1 = deleted(v0, child_name(key, SUB_COUNTER@));
    let v2 = deleted(v1, child_name(key, SUB_AUDIO_OUT@));
    let v3 = deleted(v2, child_name(key, SUB_AUDIO_IN@));
    lemma_delete_lists_no_more(v, credential_names::peer_name(key));
    lemma_delete_lists_no_more(v0, child_name(key, SUB_COUNTER@));
    lemma_delete_lists_no_more(v1, child_name(key, SUB_AUDIO_OUT@));
    lemma_delete_lists_no_more(v2, child_name(key, SUB_AUDIO_IN@));
    lemma_delete_lists_no_more(v3, child_name(key, SUB_BONDED@));
    assert forall|p: TrustedPeerView| #[trigger]
        peers_in(forgotten(v, key)).contains(p) implies peers_in(v).contains(p) by {
        assert(peers_in(v3).contains(p));
        assert(peers_in(v2).contains(p));
        assert(peers_in(v1).contains(p));
        assert(peers_in(v0).contains(p));
    }
}

/// A peer that was saved is what is loaded, when its name is fit for the screen.
pub proof fn lemma_saved_peer_is_loaded(v: Seq<(Seq<char>, Seq<u8>)>, p: TrustedPeerView)
    requires
        p.peer_static_pub.len() == 32,
        p.prs.len() == 32,
        peers::is_fit(p.peer_name),
    ensures
        ({
            let name = credential_names::peer_name(p.peer_static_pub);
            let b = lookup(written(v, name, peers::record_of(p)), name);
            b is Some && peers::peer_in(b->0) == Ok::<TrustedPeerView, StorageError<Seq<char>>>(p)
        }),
{
    let name = credential_names::peer_name(p.peer_static_pub);
    lemma_write(v, name, peers::record_of(p), name);
    peers::lemma_record_round_trip(p);
}

/// Forgetting a peer leaves nothing of it: no record, no counter, no nonce, no
/// address. A later pairing with the same device starts from zero.
pub proof fn lemma_forget_leaves_nothing(v: Seq<(Seq<char>, Seq<u8>)>, key: Seq<u8>)
    ensures
        lookup(forgotten(v, key), credential_names::peer_name(key)) is None,
        lookup(forgotten(v, key), child_name(key, SUB_BONDED@)) is None,
        counter_under(forgotten(v, key), child_name(key, SUB_COUNTER@)) == Ok::<
            u64,
            StorageError<Seq<char>>,
        >(0),
        counter_under(forgotten(v, key), child_name(key, SUB_AUDIO_OUT@)) == Ok::<
            u64,
            StorageError<Seq<char>>,
        >(0),
        counter_under(forgotten(v, key), child_name(key, SUB_AUDIO_IN@)) == Ok::<
            u64,
            StorageError<Seq<char>>,
        >(0),
{
    lemma_names_differ(key);
    let base = credential_names::peer_name(key);
    let c = child_name(key, SUB_COUNTER@);
    let o = child_name(key, SUB_AUDIO_OUT@);
    let i = child_name(key, SUB_AUDIO_IN@);
    let b = child_name(key, SUB_BONDED@);
    let v0 = deleted(v, base);
    let v1 = deleted(v0, c);
    let v2 = deleted(v1, o);
    let v3 = deleted(v2, i);
    lemma_delete(v, base, base);
    lemma_delete(v0, c, base);
    lemma_delete(v1, o, base);
    lemma_delete(v1, o, c);
    lemma_delete(v2, i, base);
    lemma_delete(v2, i, c);
    lemma_delete(v2, i, o);
    lemma_delete(v3, b, base);
    lemma_delete(v3, b, c);
    lemma_delete(v3, b, o);
    lemma_delete(v3, b, i);
}

/// Forgetting a peer touches nothing that does not belong to it.
pub proof fn lemma_forget_spares_the_rest(
    v: Seq<(Seq<char>, Seq<u8>)>,
    key: Seq<u8>,
    target: Seq<char>,
)
    requires
        target != credential_names::peer_name(key),
        target != child_name(key, SUB_COUNTER@),
        target != child_name(key, SUB_AUDIO_OUT@),
        target != child_name(key, SUB_AUDIO_IN@),
        target != child_name(key, SUB_BONDED@),
    ensures
        lookup(forgotten(v, key), target) == lookup(v, target),
{
    let v0 = deleted(v, credential_names::peer_name(key));
    let v1 = deleted(v0, child_name(key, SUB_COUNTER@));
    let v2 = deleted(v1, child_name(key, SUB_AUDIO_OUT@));
    let v3 = deleted(v2, child_name(key, SUB_AUDIO_IN@));
    lemma_delete(v, credential_names::peer_name(key), target);
    lemma_delete(v0, child_name(key, SUB_COUNTER@), target);
    lemma_delete(v1, child_name(key, SUB_AUDIO_OUT@), target);
    lemma_delete(v2, child_name(key, SUB_AUDIO_IN@), target);
    lemma_delete(v3, child_name(key, SUB_BONDED@), target);
}

/// A counter that was written is what is read, whichever counter it is, and the
/// other names of the vault keep theirs.
pub proof fn lemma_counter_is_kept(
    v: Seq<(Seq<char>, Seq<u8>)>,
    target: Seq<char>,
    n: u64,
    other: Seq<char>,
)
    ensures
        counter_under(written(v, target, credential_names::be_bytes(n)), target) == Ok::<
            u64,
            StorageError<Seq<char>>,
        >(n),
        other != target ==> counter_under(
            written(v, target, credential_names::be_bytes(n)),
            other,
        ) == counter_under(v, other),
{
    lemma_write(v, target, credential_names::be_bytes(n), other);
    credential_names::lemma_counter_round_trip(n);
}

/// A credential that hangs off a peer's record is never listed as a peer: a
/// vault that differs by it lists the same peers.
pub proof fn lemma_children_are_not_listed(
    v: Seq<(Seq<char>, Seq<u8>)>,
    key: Seq<u8>,
    sub: Seq<char>,
    blob: Seq<u8>,
)
    requires
        sub.contains('/'),
    ensures
        peers_in(written(v, child_name(key, sub), blob)) == peers_in(v),
    decreases v.len(),
{
    let target = child_name(key, sub);
    let w = written(v, target, blob);
    credential_names::lemma_children_are_no_peers(key, sub);
    if v.len() == 0 {
        assert(w.drop_first() =~= v);
        assert(peers_in(v) =~= Seq::<TrustedPeerView>::empty());
    } else if v[0].0 == target {
        assert(w.drop_first() =~= v.drop_first());
    } else {
        lemma_children_are_not_listed(v.drop_first(), key, sub, blob);
        assert(w.drop_first() =~= written(v.drop_first(), target, blob));
        assert(w[0] == v[0]);
    }
}

/// What is kept under which name in the vault.
pub proof fn lemma_where_things_lie(s: WindowsPeerStore, i: WindowsIdentityStore, key: Seq<u8>)
    ensures
        ({
            let base = "Vortex/peer/"@ + codec::hex_text(key);
            let v = s.vault@;
            &&& lookup(i.vault@, "Vortex/identity"@) is None <==> i.loads() is Err
            &&& i.loads() is Ok ==> lookup(i.vault@, "Vortex/identity"@) == Some(i.loads()->Ok_0)
            &&& lookup(v, base) is None ==> s.record(key) == Err::<
                TrustedPeerView,
                StorageError<Seq<char>>,
            >(StorageError::NotFound)
            &&& lookup(v, base) is Some ==> s.record(key) == peers::peer_in(lookup(v, base)->0)
            &&& lookup(v, base + "/counter"@) is None ==> s.counter(key) == Ok::<
                u64,
                StorageError<Seq<char>>,
            >(0)
            &&& lookup(v, base + "/counter"@) is Some ==> s.counter(key)
                == credential_names::counter_in(lookup(v, base + "/counter"@)->0)
            &&& lookup(v, base + "/audio-out-nonce"@) is Some ==> s.out_nonce(key)
                == credential_names::counter_in(lookup(v, base + "/audio-out-nonce"@)->0)
            &&& lookup(v, base + "/audio-in-nonce"@) is Some ==> s.in_nonce(key)
                == credential_names::counter_in(lookup(v, base + "/audio-in-nonce"@)->0)
            &&& lookup(v, base + "/bonded-addr"@) is None ==> s.bonded(key) is None
        }),
{
}

/// The reconnect counter moves past its own value and the peer's, and from there by one;
/// nothing else moves.
pub proof fn lemma_counter_moves_on(
    a: &mut WindowsPeerStore,
    key: &[u8; 32],
    seen: u64,
    first: StorageResult<u64>,
    b: &mut WindowsPeerStore,
    lower: u64,
    second: StorageResult<u64>,
    local: u64,
)
    requires
        call_ensures(WindowsPeerStore::bump_counter, (a, key, seen), first),
        *old(b) == *final(a),
        call_ensures(WindowsPeerStore::bump_counter, (b, key, lower), second),
        old(a).counter(key@) == Ok::<u64, StorageError<Seq<char>>>(local),
        local < u64::MAX - 1 && seen < u64::MAX - 1 && lower <= seen,
    ensures
        first is Ok && first->Ok_0 > local && first->Ok_0 > seen,
        first->Ok_0 == local + 1 || first->Ok_0 == seen + 1,
        second == Ok::<u64, StorageError>((first->Ok_0 + 1) as u64),
        final(a).record(key@) == old(a).record(key@),
        final(a).out_nonce(key@) == old(a).out_nonce(key@),
        final(a).in_nonce(key@) == old(a).in_nonce(key@),
{
    let v = old(a).vault@;
    let name = child_name(key@, SUB_COUNTER@);
    let blob = credential_names::be_bytes(first->Ok_0);
    lemma_names_differ(key@);
    lemma_write(v, name, blob, credential_names::peer_name(key@));
    lemma_write(v, name, blob, child_name(key@, SUB_AUDIO_OUT@));
    lemma_write(v, name, blob, child_name(key@, SUB_AUDIO_IN@));
    credential_names::lemma_counter_round_trip(first->Ok_0);
}

/// The first audio request carries 1, and each one after it the next number; a number is taken
/// from the peer once, and then only higher ones are.
pub proof fn lemma_nonces_of_audio_requests(
    a: &mut WindowsPeerStore,
    key: &[u8; 32],
    first: StorageResult<u64>,
    b: &mut WindowsPeerStore,
    second: StorageResult<u64>,
    c: &mut WindowsPeerStore,
    nonce: u64,
    taken: StorageResult<bool>,
    d: &mut WindowsPeerStore,
    again: u64,
    retaken: StorageResult<bool>,
)
    requires
        lookup(old(a).vault@, child_name(key@, SUB_AUDIO_OUT@)) is None,
        call_ensures(WindowsPeerStore::next_audio_out_nonce, (a, key), first),
        *old(b) == *final(a),
        call_ensures(WindowsPeerStore::next_audio_out_nonce, (b, key), second),
        lookup(old(c).vault@, child_name(key@, SUB_AUDIO_IN@)) is None,
        call_ensures(WindowsPeerStore::try_accept_audio_in_nonce, (c, key, nonce), taken),
        *old(d) == *final(c),
        call_ensures(WindowsPeerStore::try_accept_audio_in_nonce, (d, key, again), retaken),
    ensures
        first == Ok::<u64, StorageError>(1),
        second == Ok::<u64, StorageError>(2),
        taken == Ok::<bool, StorageError>(nonce > 0),
        retaken == Ok::<bool, StorageError>(again > nonce),
{
    credential_names::lemma_counter_round_trip(1);
    lemma_write(
        old(a).vault@,
        child_name(key@, SUB_AUDIO_OUT@),
        credential_names::be_bytes(1),
        child_name(key@, SUB_AUDIO_OUT@),
    );
}

/// A peer that was saved is loaded and listed, and once it is forgotten it is neither loaded,
/// nor is anything of it left.
pub proof fn lemma_peer_comes_and_goes(
    a: &mut WindowsPeerStore,
    peer: &TrustedPeer,
    saved: StorageResult<()>,
    loaded: StorageResult<TrustedPeer>,
    b: &mut WindowsPeerStore,
    gone: StorageResult<()>,
    missing: StorageResult<TrustedPeer>,
    after: &WindowsPeerStore,
    end: &WindowsPeerStore,
    counter: StorageResult<u64>,
)
    requires
        peers::is_fit(peer@.peer_name),
        call_ensures(WindowsPeerStore::save, (a, peer), saved),
        *after == *final(a),
        call_ensures(WindowsPeerStore::load, (after, &peer.peer_static_pub), loaded),
        *old(b) == *final(a),
        call_ensures(WindowsPeerStore::forget, (b, &peer.peer_static_pub), gone),
        *end == *final(b),
        call_ensures(WindowsPeerStore::load, (end, &peer.peer_static_pub), missing),
        call_ensures(WindowsPeerStore::load_counter, (end, &peer.peer_static_pub), counter),
    ensures
        saved is Ok && gone is Ok,
        loaded is Ok && (loaded->Ok_0)@ == peer@,
        peers_in(after.vault@).contains(peer@),
        missing is Err && (missing->Err_0)@ is NotFound,
        counter == Ok::<u64, StorageError>(0),
{
    lemma_saved_peer_is_loaded(old(a).vault@, peer@);
    lemma_saved_peer_is_listed(old(a).vault@, peer@);
    lemma_forget_leaves_nothing(old(b).vault@, peer@.peer_static_pub);
}

/// The address of a bond is read back as it was kept, and an empty one is none.
pub proof fn lemma_bond_is_read_back(
    a: &mut WindowsPeerStore,
    key: &[u8; 32],
    addr: &str,
    saved: StorageResult<()>,
    after: &WindowsPeerStore,
    r: StorageResult<Option<String>>,
)
    requires
        call_ensures(WindowsPeerStore::save_bonded_addr, (a, key, addr), saved),
        *after == *final(a),
        call_ensures(WindowsPeerStore::load_bonded_addr, (after, key), r),
    ensures
        saved is Ok && r is Ok,
        addr@.len() > 0 ==> r->Ok_0 is Some && (r->Ok_0)->0@ == addr@,
        addr@.len() == 0 ==> r->Ok_0 is None,
{
    let name = child_name(key@, SUB_BONDED@);
    lemma_write(old(a).vault@, name, utf8::encode_utf8(addr@), name);
    utf8::encode_utf8_valid_utf8(addr@);
    utf8::encode_utf8_decode_utf8(addr@);
}

} // verus!
