use vortex::storage::credential_names::{decode_u64, peer_target, IDENTITY_TARGET, SUB_COUNTER};
use vortex::storage::peers::{sanitize_peer_name, PeerStore, TrustedPeer};
use vortex::storage::secret_service::{
    choose_item, failure, Call, Choice, Next, Purpose, SecretServiceIdentityStore,
};
use vortex::storage::windows_credentials::{Vault, WindowsIdentityStore, WindowsPeerStore};
use vortex::storage::{
    load_or_generate, IdentityStore, InMemoryIdentityStore, StorageError,
};

fn peer(n: u8, name: Option<&str>) -> TrustedPeer {
    TrustedPeer {
        peer_static_pub: [n; 32],
        prs: [n + 1; 32],
        paired_at: 1_700_000_000 + n as u64,
        peer_name: name.map(str::to_string),
    }
}

fn store() -> WindowsPeerStore {
    WindowsPeerStore { vault: Vault::new() }
}

#[test]
fn a_saved_peer_is_loaded_and_listed() {
    let mut s = store();
    let a = peer(1, Some("Pixel"));
    let b = peer(2, None);
    s.save(&a).unwrap();
    s.save(&b).unwrap();
    assert_eq!(s.load(&[1; 32]).unwrap(), a);
    assert_eq!(s.load(&[2; 32]).unwrap(), b);
    assert_eq!(s.load(&[3; 32]), Err(StorageError::NotFound));
    assert_eq!(s.list().unwrap(), vec![a, b]);
}

#[test]
fn saving_again_replaces() {
    let mut s = store();
    s.save(&peer(1, None)).unwrap();
    s.save(&peer(1, Some("Pixel"))).unwrap();
    assert_eq!(s.list().unwrap(), vec![peer(1, Some("Pixel"))]);
}

#[test]
fn children_and_foreign_names_are_not_listed() {
    let mut s = store();
    s.save(&peer(1, None)).unwrap();
    s.bump_counter(&[1; 32], 4).unwrap();
    s.save_bonded_addr(&[1; 32], "AA:BB:CC:DD:EE:FF").unwrap();
    s.next_audio_out_nonce(&[1; 32]).unwrap();
    s.commit_audio_in_nonce(&[1; 32], 9).unwrap();
    s.vault.write(IDENTITY_TARGET, &vec![0; 90]);
    assert_eq!(s.vault.entries.len(), 6);
    assert_eq!(s.list().unwrap().len(), 1);
}

#[test]
fn an_unreadable_record_does_not_hide_the_others() {
    let mut s = store();
    s.vault.write(&peer_target(&[9; 32]), &vec![1, 2, 3]);
    s.save(&peer(1, None)).unwrap();
    assert_eq!(s.list().unwrap(), vec![peer(1, None)]);
    assert_eq!(
        s.load(&[9; 32]),
        Err(StorageError::Backend("trusted peer record too short: 3 (need ≥72)".to_string()))
    );
}

#[test]
fn forgetting_a_peer_takes_its_children_along_and_spares_the_rest() {
    let mut s = store();
    for n in [1, 2] {
        s.save(&peer(n, None)).unwrap();
        s.bump_counter(&[n; 32], 4).unwrap();
        s.save_bonded_addr(&[n; 32], "AA:BB:CC:DD:EE:FF").unwrap();
        s.next_audio_out_nonce(&[n; 32]).unwrap();
        s.commit_audio_in_nonce(&[n; 32], 9).unwrap();
    }
    s.forget(&[1; 32]).unwrap();
    assert_eq!(s.vault.entries.len(), 5);
    assert_eq!(s.load_counter(&[1; 32]).unwrap(), 0);
    assert_eq!(s.load_bonded_addr(&[1; 32]).unwrap(), None);
    assert_eq!(s.load_audio_in_nonce(&[1; 32]).unwrap(), 0);
    assert_eq!(s.load_counter(&[2; 32]).unwrap(), 5);
    assert_eq!(
        s.load_bonded_addr(&[2; 32]).unwrap().as_deref(),
        Some("AA:BB:CC:DD:EE:FF")
    );
    // Forgetting what is not there is no failure.
    assert!(s.forget(&[7; 32]).is_ok());
}

#[test]
fn saving_and_forgetting_leave_the_other_peers_alone() {
    let mut s = store();
    s.save(&peer(1, None)).unwrap();
    s.bump_counter(&[1; 32], 4).unwrap();
    s.save(&peer(2, Some("Pixel"))).unwrap();
    assert_eq!(s.load(&[1; 32]).unwrap(), peer(1, None));
    assert_eq!(s.load_counter(&[1; 32]).unwrap(), 5);
    s.forget(&[2; 32]).unwrap();
    assert_eq!(s.load(&[2; 32]), Err(StorageError::NotFound));
    assert_eq!(s.load(&[1; 32]).unwrap(), peer(1, None));
    assert_eq!(s.load_counter(&[1; 32]).unwrap(), 5);
    assert_eq!(s.list().unwrap(), vec![peer(1, None)]);
}

#[test]
fn the_reconnect_counter_moves_past_both_sides() {
    let mut s = store();
    assert_eq!(s.load_counter(&[1; 32]).unwrap(), 0);
    assert_eq!(s.bump_counter(&[1; 32], 0).unwrap(), 1);
    assert_eq!(s.bump_counter(&[1; 32], 41).unwrap(), 42);
    assert_eq!(s.bump_counter(&[1; 32], 7).unwrap(), 43);
    assert_eq!(s.load_counter(&[1; 32]).unwrap(), 43);
    assert_eq!(s.load_counter(&[2; 32]).unwrap(), 0);
    assert_eq!(s.bump_counter(&[1; 32], u64::MAX).unwrap(), u64::MAX);
}

#[test]
fn a_damaged_counter_is_reported() {
    let mut s = store();
    s.vault
        .write(&format!("{}{}", peer_target(&[1; 32]), SUB_COUNTER), &vec![0; 7]);
    assert_eq!(s.load_counter(&[1; 32]), Err(decode_u64(&[0; 7]).unwrap_err()));
    assert!(s.bump_counter(&[1; 32], 3).is_err());
    assert!(matches!(decode_u64(&[0; 7]), Err(StorageError::Backend(_))));
}

#[test]
fn the_first_outgoing_nonce_is_one() {
    let mut s = store();
    assert_eq!(s.next_audio_out_nonce(&[1; 32]).unwrap(), 1);
    assert_eq!(s.next_audio_out_nonce(&[1; 32]).unwrap(), 2);
    assert_eq!(s.next_audio_out_nonce(&[2; 32]).unwrap(), 1);
}

#[test]
fn a_nonce_is_taken_once() {
    let mut s = store();
    assert_eq!(s.try_accept_audio_in_nonce(&[1; 32], 5), Ok(true));
    assert_eq!(s.try_accept_audio_in_nonce(&[1; 32], 5), Ok(false));
    assert_eq!(s.try_accept_audio_in_nonce(&[1; 32], 4), Ok(false));
    assert_eq!(s.try_accept_audio_in_nonce(&[1; 32], 6), Ok(true));
    assert_eq!(s.load_audio_in_nonce(&[1; 32]).unwrap(), 6);
}

#[test]
fn committing_a_nonce_never_lowers_it() {
    let mut s = store();
    s.commit_audio_in_nonce(&[1; 32], 9).unwrap();
    s.commit_audio_in_nonce(&[1; 32], 3).unwrap();
    assert_eq!(s.load_audio_in_nonce(&[1; 32]).unwrap(), 9);
}

#[test]
fn names_are_made_fit_for_the_screen() {
    assert_eq!(sanitize_peer_name("Pi\u{7}xel\u{9b}\n 8"), "Pixel 8");
    assert_eq!(sanitize_peer_name(&"é".repeat(80)), "é".repeat(64));
    // A name that is not UTF-8, or of which nothing stays, is no name.
    let mut blob = peer(1, None).encode();
    blob.extend_from_slice(&[0xff, 0xfe]);
    assert_eq!(TrustedPeer::decode(&blob).unwrap().peer_name, None);
    let mut blank = peer(1, None).encode();
    blank.extend_from_slice(b"\n\t");
    assert_eq!(TrustedPeer::decode(&blank).unwrap().peer_name, None);
    let mut accented = peer(1, None).encode();
    accented.extend_from_slice("Zoë".as_bytes());
    assert_eq!(TrustedPeer::decode(&accented).unwrap().peer_name.as_deref(), Some("Zoë"));
}

#[test]
fn a_peer_is_named_by_its_key_in_hexadecimal() {
    let mut key = [0u8; 32];
    key[0] = 0x0f;
    key[31] = 0xa0;
    assert_eq!(
        peer_target(&key),
        "Vortex/peer/0f000000000000000000000000000000000000000000000000000000000000a0"
    );
}

#[test]
fn the_identity_lies_in_the_vault_as_bytes() {
    let mut s = WindowsIdentityStore { vault: Vault::new() };
    assert!(!s.is_present());
    assert_eq!(s.load(), Err(StorageError::NotFound));
    assert_eq!(load_or_generate(&mut s, vec![1, 2, 3]), Ok(vec![1, 2, 3]));
    assert_eq!(load_or_generate(&mut s, vec![9]), Ok(vec![1, 2, 3]));
    assert!(s.is_present());
    assert_eq!(s.vault.read(IDENTITY_TARGET), Some(vec![1, 2, 3]));
    s.forget().unwrap();
    assert!(!s.is_present());
    assert!(s.forget().is_ok());
}

#[test]
fn a_default_store_is_empty() {
    assert!(!InMemoryIdentityStore::default().is_present());
}

#[test]
fn storage_errors_read_as_sentences() {
    assert_eq!(
        failure(Call::Search, "gone").text(),
        StorageError::Backend("search: gone".to_string()).text()
    );
    assert_eq!(StorageError::<String>::NotFound.text(), "not found");
    assert_eq!(StorageError::Backend("disk".to_string()).text(), "backend error: disk");
    assert_eq!(StorageError::Locked("no agent".to_string()).text(), "keyring locked: no agent");
}

fn walk(purpose: Purpose, locked: bool) -> Vec<Call> {
    let (session, first) = SecretServiceIdentityStore::begin(purpose);
    let mut calls = vec![first];
    loop {
        let call = calls[calls.len() - 1];
        match session.step(call, Ok(Some(locked))) {
            Ok(Next::Ask(next)) => calls.push(next),
            Ok(Next::Done) => return calls,
            Err(_) => unreachable!(),
        }
    }
}

#[test]
fn a_keyring_session_asks_in_order() {
    assert_eq!(
        walk(Purpose::Save, false),
        vec![Call::Connect, Call::DefaultCollection, Call::CreateItem]
    );
    assert_eq!(
        walk(Purpose::Save, true),
        vec![Call::Connect, Call::DefaultCollection, Call::UnlockCollection, Call::CreateItem]
    );
    assert_eq!(
        walk(Purpose::Load, false),
        vec![Call::Connect, Call::Search, Call::GetSecret, Call::Decode]
    );
    assert_eq!(
        walk(Purpose::Load, true),
        vec![Call::Connect, Call::Search, Call::UnlockItem, Call::GetSecret, Call::Decode]
    );
    assert_eq!(walk(Purpose::Forget, true), vec![Call::Connect, Call::Search, Call::Delete]);
    let (session, first) = SecretServiceIdentityStore::new();
    assert_eq!(first, Call::Probe);
    assert_eq!(session.step(Call::Probe, Ok(None)), Ok(Next::Ask(Call::DefaultCollection)));
    assert_eq!(session.step(Call::DefaultCollection, Ok(None)), Ok(Next::Done));
}

#[test]
fn each_failed_keyring_call_says_what_failed() {
    let (session, _) = SecretServiceIdentityStore::begin(Purpose::Save);
    assert_eq!(
        session.step(Call::UnlockCollection, Err("no prompt".to_string())),
        Err(StorageError::Locked("unlock refused or unavailable: no prompt".to_string()))
    );
    for (call, text) in [
        (Call::Probe, "secret service connect: x"),
        (Call::Connect, "connect: x"),
        (Call::DefaultCollection, "default collection: x"),
        (Call::CreateItem, "create_item: x"),
        (Call::Search, "search: x"),
        (Call::UnlockItem, "unlock: x"),
        (Call::GetSecret, "get_secret: x"),
        (Call::Delete, "delete: x"),
        (Call::Decode, "x"),
    ] {
        assert_eq!(failure(call, "x"), StorageError::Backend(text.to_string()));
    }
}

#[test]
fn the_last_unlocked_item_is_read_first() {
    assert_eq!(choose_item(2, 3), Ok(Choice::Unlocked(1)));
    assert_eq!(choose_item(0, 3), Ok(Choice::Locked(2)));
    assert_eq!(choose_item(0, 0), Err(StorageError::NotFound));
}
