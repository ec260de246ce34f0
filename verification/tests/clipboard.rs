use vortex::clipboard::{evict, ClipEntry, MAX_AGE_MS, MAX_ENTRIES, MAX_TOTAL_BYTES};

fn now_ms_test() -> u64 {
    std::time::SystemTime::now()
        .duration_since(std::time::UNIX_EPOCH)
        .map(|d| d.as_millis() as u64)
        .unwrap_or(0)
}

/// Fresh by default: these exercise the size caps, so they must not also be
/// expired by the age cap.
fn text_entry(id: &str, bytes: u64, pinned: bool) -> ClipEntry {
    text_entry_at(id, bytes, pinned, now_ms_test())
}

fn text_entry_at(id: &str, bytes: u64, pinned: bool, ts_ms: u64) -> ClipEntry {
    ClipEntry {
        id: id.into(),
        kind: "text".into(),
        text: Some("x".into()),
        file: None,
        bytes,
        ts_ms,
        pinned,
    }
}

#[test]
fn evict_drops_entries_past_the_age_cap() {
    let now = now_ms_test();
    let mut v = vec![
        text_entry_at("fresh", 1, false, now),
        text_entry_at("old", 1, false, now - MAX_AGE_MS - 1),
        text_entry_at("old_but_pinned", 1, true, now - MAX_AGE_MS - 1),
    ];
    evict(&mut v, now);
    let ids: Vec<&str> = v.iter().map(|e| e.id.as_str()).collect();
    assert!(ids.contains(&"fresh"), "a fresh clip must survive");
    assert!(
        ids.contains(&"old_but_pinned"),
        "pinning is the way to keep something past the window"
    );
    assert!(
        !ids.contains(&"old"),
        "an unpinned clip older than the window must be forgotten \
         even though the size caps are nowhere near"
    );
}

#[test]
fn evict_drops_oldest_unpinned_beyond_count() {
    let n = MAX_ENTRIES + 10;
    let mut v: Vec<ClipEntry> =
        (0..n).map(|i| text_entry(&format!("e{i}"), 1, false)).collect();
    evict(&mut v, now_ms_test());
    assert_eq!(v.len(), MAX_ENTRIES);
    // Newest (front) survive; the tail got dropped.
    assert_eq!(v[0].id, "e0");
    assert_eq!(v.last().unwrap().id, format!("e{}", MAX_ENTRIES - 1));
}

#[test]
fn evict_skips_pinned() {
    let n = MAX_ENTRIES + 10;
    let mut v: Vec<ClipEntry> =
        (0..n).map(|i| text_entry(&format!("e{i}"), 1, i == n - 1)).collect();
    evict(&mut v, now_ms_test());
    assert!(
        v.iter().any(|e| e.id == format!("e{}", n - 1)),
        "pinned tail entry must survive"
    );
    assert_eq!(v.len(), MAX_ENTRIES);
}

#[test]
fn evict_respects_byte_budget() {
    let mut v: Vec<ClipEntry> = (0..10)
        .map(|i| text_entry(&format!("e{i}"), MAX_TOTAL_BYTES / 4, false))
        .collect();
    evict(&mut v, now_ms_test());
    let total: u64 = v.iter().map(|e| e.bytes).sum();
    assert!(total <= MAX_TOTAL_BYTES);
    assert_eq!(v[0].id, "e0");
}
