use vortex::storage::credential_names::{
    decode_u64, encode_u64, peer_from_target, peer_target, PEER_PREFIX, SUB_AUDIO_IN,
    SUB_AUDIO_OUT, SUB_BONDED, SUB_COUNTER,
};
use vortex::storage::peers::TrustedPeer;
use vortex::storage::{
    load_or_generate, IdentityRecord, IdentityStore, InMemoryIdentityStore, Platform, StorageError,
};

const KEY: [u8; 32] = [0xAB; 32];

fn record(n: u8) -> IdentityRecord {
    IdentityRecord {
        platform: Platform::Linux,
        device_id: [n; 16],
        static_priv: [n + 1; 32],
        static_pub: [n + 2; 32],
        created_at: 1_700_000_000,
    }
}

#[test]
fn a_peer_target_round_trips() {
    let t = peer_target(&KEY);
    assert!(t.starts_with(PEER_PREFIX));
    assert_eq!(peer_from_target(&t), Some(KEY));
}

/// The children share the peer's prefix and would otherwise be listed as peers,
/// each with a nonsense public key.
#[test]
fn the_children_of_a_peer_are_not_peers() {
    let base = peer_target(&KEY);
    for sub in [SUB_COUNTER, SUB_AUDIO_OUT, SUB_AUDIO_IN, SUB_BONDED] {
        let child = format!("{base}{sub}");
        assert!(
            peer_from_target(&child).is_none(),
            "{child} must not read as a peer"
        );
    }
}

#[test]
fn foreign_and_malformed_targets_are_rejected() {
    assert_eq!(peer_from_target("Vortex/identity"), None);
    assert_eq!(peer_from_target("SomeoneElse/peer/aabb"), None);
    // Right prefix, not hex.
    assert_eq!(peer_from_target(&format!("{PEER_PREFIX}zzzz")), None);
    // Right prefix, valid hex, wrong length: a 31-byte key is not a key.
    assert_eq!(peer_from_target(&format!("{PEER_PREFIX}{}", "ab".repeat(31))), None);
    assert_eq!(peer_from_target(PEER_PREFIX), None);
}

#[test]
fn counters_round_trip_big_endian() {
    for v in [0u64, 1, 42, u64::MAX] {
        assert_eq!(decode_u64(&encode_u64(v)).unwrap(), v);
    }
    assert_eq!(encode_u64(1), vec![0, 0, 0, 0, 0, 0, 0, 1]);
}

/// A truncated counter must not read as a smaller number, and an empty one must
/// not read as zero.
#[test]
fn a_wrong_sized_counter_is_an_error_not_a_zero() {
    assert!(decode_u64(&[]).is_err());
    assert!(decode_u64(&[0, 0, 0, 1]).is_err());
    assert!(decode_u64(&[0; 9]).is_err());
}

#[test]
fn round_trip_in_memory() {
    let mut store = InMemoryIdentityStore::new();
    assert!(!store.is_present());

    let record = record(7);
    store.save(&record).unwrap();

    let loaded = store.load().unwrap();
    assert_eq!(loaded.device_id, record.device_id);
    assert_eq!(loaded.static_priv, record.static_priv);
    assert_eq!(loaded.static_pub, record.static_pub);
    assert_eq!(loaded.platform, record.platform);
}

#[test]
fn forget_clears_store() {
    let mut store = InMemoryIdentityStore::new();
    store.save(&record(7)).unwrap();
    assert!(store.is_present());
    store.forget().unwrap();
    assert!(!store.is_present());
}

#[test]
fn load_or_generate_creates_then_reuses() {
    let mut store = InMemoryIdentityStore::new();
    let first = load_or_generate(&mut store, record(7)).unwrap();
    let second = load_or_generate(&mut store, record(99)).unwrap();
    assert_eq!(first.device_id, second.device_id);
    assert_eq!(first.static_pub, second.static_pub);
    assert_eq!(first.device_id, [7; 16]);
}

#[test]
fn encode_decode_round_trip() {
    let peer = TrustedPeer {
        peer_static_pub: [0xAA; 32],
        prs: [0xBB; 32],
        paired_at: 1_700_000_000,
        peer_name: None,
    };
    let encoded = peer.encode();
    assert_eq!(encoded.len(), 72);
    let decoded = TrustedPeer::decode(&encoded).unwrap();
    assert_eq!(decoded, peer);
}

#[test]
fn rejects_wrong_length() {
    assert!(TrustedPeer::decode(&[0u8; 71]).is_err());
    // Bytes past 72 are the optional device name.
    assert!(TrustedPeer::decode(&[0u8; 72]).is_ok());
}

#[test]
fn round_trip_with_name() {
    let peer = TrustedPeer {
        peer_static_pub: [0xAA; 32],
        prs: [0xBB; 32],
        paired_at: 1_700_000_000,
        peer_name: Some("zoyirjon-Blade".to_string()),
    };
    let encoded = peer.encode();
    let decoded = TrustedPeer::decode(&encoded).unwrap();
    assert_eq!(decoded, peer);
    assert_eq!(decoded.peer_name.as_deref(), Some("zoyirjon-Blade"));
}

#[test]
fn a_clone_holds_what_the_store_holds() {
    let mut store = InMemoryIdentityStore::new();
    assert!(store.clone().load().is_err());
    store.save(&record(7)).unwrap();
    let copy = store.clone();
    let loaded = copy.load().unwrap();
    assert_eq!(loaded.device_id, record(7).device_id);
    assert_eq!(loaded.static_priv, record(7).static_priv);
    assert_eq!(loaded.static_pub, record(7).static_pub);
    assert_eq!(loaded.created_at, record(7).created_at);
    store.forget().unwrap();
    assert_eq!(store.clone().load().err(), Some(StorageError::NotFound));
}
