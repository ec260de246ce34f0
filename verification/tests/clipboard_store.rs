use vortex::clipboard::{
    accept_png, captured_image, captured_text, clip_dir, clipboard_delete, clipboard_get,
    clipboard_history, clipboard_is_secret, clipboard_pin, clipboard_select, evict, file_needed,
    hash_id, hint_says_secret, probe, store_capture, surface, wayland_clipboard_is_secret,
    ClipEntry, ClipWatch, ImageRead, OfferedTypes, Payload, ProbeEvent, ProbeStep, TextRead,
    TextStep, MAX_AGE_MS, MAX_ENTRIES, MAX_IMAGE_BYTES, MAX_TEXT_CHARS, MAX_TOTAL_BYTES,
    PREVIEW_CHARS,
};
use vortex::clipboard_sync::{
    batch_question, clipboard_picture, decode_png_rgba, downloads_label, file_name, img_sig,
    safe_file_name, sync_sig, tidy_text, unique_name, BatchQuestion, ClipSync, Offer, OfferAction,
    OfferBatch, OfferEvent,
};

const NOW: u64 = 2_000_000_000_000;

fn texts(v: &Vec<ClipEntry>) -> Vec<&str> {
    v.iter().map(|e| e.text.as_deref().unwrap_or("")).collect()
}

fn copy(v: &mut Vec<ClipEntry>, t: &str) -> (bool, Vec<String>) {
    store_capture(v, "text", Some(t.to_string()), None, false, NOW)
}

#[test]
fn content_is_known_by_its_digest() {
    assert_eq!(hash_id(b"abc"), "ba7816bf8f01cfea");
    assert_eq!(sync_sig("abc"), "ba7816bf8f01cfea");
    assert_ne!(hash_id(b"abd"), hash_id(b"abc"));
}

#[test]
fn a_copy_comes_to_the_front_and_is_held_once() {
    let mut v = Vec::new();
    assert_eq!(copy(&mut v, "abc"), (true, vec![]));
    assert_eq!(copy(&mut v, "two"), (true, vec![]));
    assert_eq!(texts(&v), vec!["two", "abc"]);
    assert_eq!(v[1].id, "ba7816bf8f01cfea");
    assert_eq!((v[1].bytes, v[1].ts_ms, v[1].pinned), (3, NOW, false));
    assert_eq!(copy(&mut v, "two"), (false, vec![]));
    assert_eq!(copy(&mut v, "abc"), (true, vec![]));
    assert_eq!(texts(&v), vec!["abc", "two"]);
    assert_eq!(store_capture(&mut v, "text", None, None, true, NOW), (false, vec![]));
}

#[test]
fn a_picture_needs_its_file() {
    let mut v = Vec::new();
    let png = Some(vec![1, 2, 3]);
    let name = format!("{}.png", hash_id(&[1, 2, 3]));
    assert_eq!(file_needed(&v, &None, &png), Some(name.clone()));
    assert_eq!(file_needed(&v, &Some("x".to_string()), &None), None);
    assert_eq!(store_capture(&mut v, "image", None, png.clone(), false, NOW).0, false);
    assert!(v.is_empty());
    assert_eq!(store_capture(&mut v, "image", None, png.clone(), true, NOW).0, true);
    assert_eq!(v[0].file, Some(name));
    assert_eq!(v[0].bytes, 3);
    assert_eq!(file_needed(&v, &None, &png), None);
}

fn entry(id: &str, bytes: u64, ts_ms: u64, pinned: bool, file: Option<&str>) -> ClipEntry {
    ClipEntry {
        id: id.to_string(),
        kind: "image".to_string(),
        text: None,
        file: file.map(str::to_string),
        bytes,
        ts_ms,
        pinned,
    }
}

#[test]
fn files_of_what_is_forgotten_are_named() {
    let mut v = vec![
        entry("new", 1, NOW, false, Some("new.png")),
        entry("edge", 1, NOW - MAX_AGE_MS + 1, false, Some("edge.png")),
        entry("old", 1, NOW - MAX_AGE_MS, false, Some("old.png")),
        entry("big", MAX_TOTAL_BYTES, NOW, false, Some("big.png")),
    ];
    assert_eq!(evict(&mut v, NOW), vec!["old.png", "big.png"]);
    assert_eq!(v.len(), 2);
    // A clock that stands at zero makes nothing old.
    let mut v = vec![entry("x", 1, 0, false, Some("x.png"))];
    assert_eq!(evict(&mut v, 0), Vec::<String>::new());
    assert_eq!(v.len(), 1);
}

#[test]
fn pinned_entries_outlast_every_limit() {
    let mut v: Vec<ClipEntry> = (0..MAX_ENTRIES + 5)
        .map(|i| entry(&format!("{i}"), MAX_TOTAL_BYTES, 1, true, None))
        .collect();
    assert!(evict(&mut v, NOW).is_empty());
    assert_eq!(v.len(), MAX_ENTRIES + 5);
}

#[test]
fn the_watcher_sees_each_content_once() {
    let mut w = ClipWatch::new();
    assert_eq!(w.on_text(&TextRead::Text("hi".to_string())), (TextStep::Fresh, true));
    assert_eq!(w.on_text(&TextRead::Text("hi".to_string())), (TextStep::Same, false));
    assert_eq!(w.on_text(&TextRead::Text("ho".to_string())), (TextStep::Fresh, false));
    assert_eq!(w.on_text(&TextRead::Text(" \n".to_string())), (TextStep::TryImage, false));
    assert_eq!(w.on_text(&TextRead::NotText), (TextStep::TryImage, false));
    let picture = || ImageRead::Image { width: 1, height: 2, rgba: vec![0; 8] };
    assert_eq!(w.on_image(&picture()), (Some(img_sig(1, 2, &[0; 8])), true));
    assert_eq!(w.on_image(&picture()), (None, false));
    assert_eq!(w.on_image(&ImageRead::NotImage), (None, true));
    assert_eq!(w.on_image(&ImageRead::Error("x".to_string())), (None, true));
    assert_eq!(w.on_text(&TextRead::Error("x".to_string())), (TextStep::TryImage, false));
    assert_eq!(w.last_sig, format!("i:1x2:{}", hash_id(&[0; 8])));
}

#[test]
fn what_is_kept_of_a_text() {
    assert_eq!(captured_text("secret", true), None);
    assert_eq!(captured_text("\n\na\n\n\n\nb\r\n", false).as_deref(), Some("a\n\nb"));
    let long = "é".repeat(MAX_TEXT_CHARS + 7);
    assert_eq!(captured_text(&long, false), Some("é".repeat(MAX_TEXT_CHARS)));
}

#[test]
fn a_picture_goes_through_png_and_back() {
    let rgba: Vec<u8> = (0..2 * 3 * 4).collect();
    let png = captured_image(2, 3, rgba.clone()).unwrap();
    assert_eq!(&png[..8], b"\x89PNG\r\n\x1a\n");
    assert_eq!(decode_png_rgba(&png), Some((2, 3, rgba.clone())));
    assert_eq!(clipboard_picture(&png), Ok((2, 3, rgba.clone())));
    assert_eq!(captured_image(2, 4, rgba), None);
    assert_eq!(decode_png_rgba(b"nonsense"), None);
    assert!(clipboard_picture(b"nonsense").unwrap_err().starts_with("decode png: "));
    assert_eq!(accept_png(None), None);
    assert_eq!(accept_png(Some(vec![0; MAX_IMAGE_BYTES + 1])), None);
    assert!(accept_png(Some(vec![0; MAX_IMAGE_BYTES])).is_some());
}

#[test]
fn the_mark_of_a_picture_covers_its_size() {
    let mut bytes = vec![1, 0, 0, 0, 0, 1, 0, 0];
    bytes.extend_from_slice(&[7, 8]);
    assert_eq!(img_sig(1, 256, &[7, 8]), hash_id(&bytes));
    assert_ne!(img_sig(1, 2, &[0; 8]), img_sig(2, 1, &[0; 8]));
}

#[test]
fn a_secret_is_what_its_owner_calls_one() {
    let hint = "x-kde-passwordManagerHint".to_string();
    let types = OfferedTypes::Types(vec!["text/plain".to_string(), hint]);
    assert_eq!(wayland_clipboard_is_secret(true, &types), Some(true));
    assert_eq!(wayland_clipboard_is_secret(false, &types), None);
    let plain = OfferedTypes::Types(vec!["text/plain".to_string()]);
    assert_eq!(wayland_clipboard_is_secret(true, &plain), Some(false));
    assert_eq!(wayland_clipboard_is_secret(true, &OfferedTypes::Empty), Some(false));
    assert_eq!(wayland_clipboard_is_secret(true, &OfferedTypes::Unavailable), None);
    assert!(hint_says_secret(b" Secret\n"));
    assert!(!hint_says_secret(b"secrets"));
    assert!(!hint_says_secret(&[0xff]));
    assert!(clipboard_is_secret(Some(true), Some(false)));
    assert!(!clipboard_is_secret(Some(false), Some(true)));
    assert!(clipboard_is_secret(None, Some(true)));
    assert!(!clipboard_is_secret(None, None));
}

#[test]
fn a_probe_that_fails_keeps_the_copy() {
    let settled = |secret: bool| ProbeStep::Settled { secret };
    assert_eq!(probe(60, &ProbeEvent::Error), settled(false));
    assert_eq!(probe(60, &ProbeEvent::Other), ProbeStep::Poll);
    assert_eq!(probe(60, &ProbeEvent::Quiet { now: 59 }), ProbeStep::Sleep);
    assert_eq!(probe(60, &ProbeEvent::Quiet { now: 60 }), settled(false));
    assert_eq!(probe(60, &ProbeEvent::Answered { property: 0 }), settled(false));
    assert_eq!(probe(60, &ProbeEvent::Answered { property: 9 }), ProbeStep::ReadValue);
    assert_eq!(probe(60, &ProbeEvent::Value(None)), settled(false));
    assert_eq!(probe(60, &ProbeEvent::Value(Some(b"hunter2".to_vec()))), settled(false));
    assert_eq!(probe(60, &ProbeEvent::Value(Some(b"secret".to_vec()))), settled(true));
}

#[test]
fn the_list_shows_a_preview() {
    let dir = clip_dir(Some("/home/u".to_string()));
    assert_eq!(dir.as_deref(), Some("/home/u/.cache/vortex/clipboard"));
    assert_eq!(clip_dir(None), None);
    let mut v = Vec::new();
    copy(&mut v, &"x".repeat(PREVIEW_CHARS + 9));
    v.push(entry("pic", 5, NOW, true, Some("pic.png")));
    let rows = clipboard_history(&v, &dir);
    assert_eq!(rows[0].text, Some("x".repeat(PREVIEW_CHARS)));
    assert_eq!(rows[1].path.as_deref(), Some("/home/u/.cache/vortex/clipboard/pic.png"));
    assert!(rows[1].pinned);
    let id = v[0].id.clone();
    let full = clipboard_get(&v, &dir, &id).unwrap();
    assert_eq!(full.text, Some("x".repeat(PREVIEW_CHARS + 9)));
    assert_eq!(clipboard_get(&v, &dir, "nothing"), None);
}

#[test]
fn an_entry_can_be_used_pinned_and_deleted() {
    let dir = Some("/d".to_string());
    let mut v = Vec::new();
    copy(&mut v, "abc");
    v.push(entry("pic", 5, NOW, false, Some("pic.png")));
    v.push(entry("hollow", 5, NOW, false, None));
    let id = v[0].id.clone();
    assert_eq!(clipboard_select(&v, &dir, &id), Ok(Payload::Text("abc".to_string())));
    assert_eq!(
        clipboard_select(&v, &dir, "pic"),
        Ok(Payload::Image("/d/pic.png".to_string()))
    );
    assert_eq!(clipboard_select(&v, &dir, "hollow"), Err("entry not found".to_string()));
    assert_eq!(clipboard_select(&v, &None, "pic"), Err("entry not found".to_string()));
    surface(&mut v, "pic");
    assert_eq!(v[0].id, "pic");
    surface(&mut v, "nothing");
    assert_eq!(v[0].id, "pic");
    clipboard_pin(&mut v, "pic", true);
    assert!(v[0].pinned && !v[1].pinned);
    assert_eq!(clipboard_delete(&mut v, "pic"), Some("pic.png".to_string()));
    assert_eq!(clipboard_delete(&mut v, &id), None);
    assert_eq!(clipboard_delete(&mut v, "nothing"), None);
    assert_eq!(v.len(), 1);
}

#[test]
fn tidying_is_done_once() {
    for s in ["", "\n\r\n", "a", "\n a\n\n\nb \n", "a\r\n\r\n\r\nb", "a\n\n\n\n\nb\n\n\nc"] {
        let once = tidy_text(s);
        assert_eq!(tidy_text(&once), once);
        assert!(!once.contains("\n\n\n"));
    }
    assert_eq!(tidy_text("\n a\n\n\nb \n"), " a\n\nb ");
}

#[test]
fn a_text_from_the_phone_does_not_go_back() {
    let mut sync = ClipSync::new();
    let put = sync.receive_text("\nhello\n\n\n\nworld\n").unwrap();
    assert_eq!(put, "hello\n\nworld");
    let seen = captured_text(&put, false).unwrap();
    assert_eq!(sync.offer_text(&seen), None);
    let sig = sync.offer_text("something else").unwrap();
    assert_eq!(sig, sync_sig("something else"));
    sync.text_sent(sig);
    assert_eq!(sync.offer_text("something else"), None);
    assert!(sync.offer_text(&seen).is_some());
    assert_eq!(sync.receive_text("\n\n"), None);
    assert_eq!(sync.set_local_text("code").as_deref(), Some("code"));
    assert_eq!(sync.offer_text("code"), None);
}

#[test]
fn a_picture_from_the_phone_does_not_go_back() {
    let mut sync = ClipSync::new();
    let rgba: Vec<u8> = vec![9; 4];
    let png = captured_image(1, 1, rgba.clone()).unwrap();
    assert!(sync.receive_image(&png));
    let mut w = ClipWatch::new();
    let (sig, _) = w.on_image(&ImageRead::Image { width: 1, height: 1, rgba });
    assert!(!sync.offer_image(&sig.unwrap()));
    assert!(sync.offer_image("another"));
    sync.image_sent("another".to_string());
    assert!(!sync.offer_image("another"));
    // A file that cannot be read leaves the guard as it is.
    assert!(sync.receive_image(b"nonsense"));
    assert!(!sync.offer_image("another"));
    assert!(sync.guard_image(Some((1, 1, vec![1; 4]))));
    assert!(!sync.offer_image(&img_sig(1, 1, &[1; 4])));
}

#[test]
fn nothing_is_shared_while_sharing_is_off() {
    let mut sync = ClipSync::new();
    assert!(sync.get_clipboard_sync());
    assert!(sync.queues_image(10, 10) && !sync.queues_image(11, 10));
    sync.set_clipboard_sync(false);
    assert!(!sync.get_clipboard_sync());
    assert_eq!(sync.offer_text("x"), None);
    assert_eq!(sync.receive_text("x"), None);
    assert!(!sync.offer_image("x") && !sync.receive_image(b"") && !sync.queues_image(1, 10));
}

#[test]
fn a_shared_file_stays_in_its_folder() {
    for (name, kept) in [
        ("photo.jpg", "photo.jpg"),
        ("/etc/passwd", "passwd"),
        ("../../x.sh", "x.sh"),
        ("a/b/", "b"),
        ("a/.", "a"),
        ("..", "vortex-file"),
        ("a/..", "vortex-file"),
        ("/", "vortex-file"),
        ("", "vortex-file"),
        (".", "vortex-file"),
        (".profile", ".profile"),
    ] {
        assert_eq!(safe_file_name(name), kept, "{name}");
    }
    // The same as the standard library says of a path.
    for p in ["a", "a/b", "/a/b/", "a/./.", "./a", "..", "a/..", "/", "", ".", "a//b//", "..a", "a."] {
        let std = std::path::Path::new(p).file_name().map(|n| n.to_string_lossy().into_owned());
        assert_eq!(file_name(p), std, "{p}");
    }
}

#[test]
fn a_file_that_is_there_is_not_written_over() {
    let taken = |names: &[&str]| -> Vec<String> { names.iter().map(|n| n.to_string()).collect() };
    assert_eq!(unique_name("a.txt", &taken(&[])), "a.txt");
    assert_eq!(unique_name("a.txt", &taken(&["a.txt"])), "a (1).txt");
    assert_eq!(unique_name("a.txt", &taken(&["a.txt", "a (1).txt"])), "a (2).txt");
    assert_eq!(unique_name(".rc", &taken(&[".rc"])), ".rc (1)");
    assert_eq!(unique_name("x", &taken(&["x"])), "x (1)");
    assert_eq!(unique_name("a.tar.gz", &taken(&["a.tar.gz"])), "a.tar (1).gz");
}

#[test]
fn the_download_folder_has_a_name() {
    assert_eq!(downloads_label(&Some("/home/u/Téléchargements".to_string())), "Téléchargements");
    assert_eq!(downloads_label(&Some("/".to_string())), "Downloads");
    assert_eq!(downloads_label(&None), "Downloads");
}

fn offer(name: &str, bytes: u64, is_file: bool) -> Offer {
    Offer {
        token: format!("token-{name}"),
        name: name.to_string(),
        mime: String::new(),
        bytes,
        is_file,
    }
}

#[test]
fn files_that_arrive_together_raise_one_question() {
    let mut batch = OfferBatch::new();
    assert_eq!(batch.patience_ms(), None);
    assert!(matches!(
        batch.step(OfferEvent::Arrived(offer("a", 5, true)), true),
        OfferAction::Wait
    ));
    assert_eq!(batch.patience_ms(), Some(1_200));
    assert!(matches!(
        batch.step(OfferEvent::Arrived(offer("pic", 5, false)), true),
        OfferAction::PullImage(t) if t == "token-pic"
    ));
    batch.step(OfferEvent::Arrived(offer("b", 7, true)), true);
    batch.step(OfferEvent::Arrived(offer("c", 7, true)), false);
    match batch.step(OfferEvent::Quiet, true) {
        OfferAction::Ask { files, last } => {
            assert!(!last);
            assert_eq!(files, vec![offer("a", 5, true), offer("b", 7, true)]);
            assert_eq!(
                batch_question(&files),
                Some(BatchQuestion { label: "2 files".to_string(), count: 2, total: 12 })
            );
        }
        _ => panic!("no question"),
    }
    assert_eq!(batch.patience_ms(), None);
    assert!(matches!(
        batch.step(OfferEvent::Closed, true),
        OfferAction::Ask { files, last: true } if files.is_empty()
    ));
    assert_eq!(
        batch_question(&vec![offer("a", 5, true)]),
        Some(BatchQuestion { label: "a".to_string(), count: 1, total: 5 })
    );
    assert_eq!(batch_question(&Vec::new()), None);
}

#[test]
fn tidying_takes_away_nothing_but_breaks() {
    assert_eq!(tidy_text("\r\n\none\n\n\n\n two\r\n"), "one\n\n two");
    assert_eq!(tidy_text("a\n\n\n\nb"), "a\n\nb");
    assert_eq!(tidy_text("a\n\nb"), "a\n\nb");
    assert_eq!(tidy_text("a\nb"), "a\nb");
    assert_eq!(tidy_text("a\r\n\r\n\r\nb"), "a\r\n\r\n\r\nb");
    for s in ["\n\n x \n\n\n y\r\n", "a\r\n\r\n\n\n\nb", "  \n"] {
        let kept = |t: &str| t.chars().filter(|c| !matches!(c, '\n' | '\r')).collect::<String>();
        let t = tidy_text(s);
        assert_eq!(kept(&t), kept(s));
        assert!(!t.starts_with(['\n', '\r']) && !t.ends_with(['\n', '\r']));
    }
}

#[test]
fn the_oldest_go_first_and_no_more_than_must() {
    let third = MAX_TOTAL_BYTES / 3;
    let mut v = vec![
        entry("a", third, NOW, false, None),
        entry("b", third, NOW, true, None),
        entry("c", third, NOW, false, None),
        entry("d", 1, NOW, false, None),
        entry("e", 1, NOW, true, None),
        entry("f", 1, NOW - MAX_AGE_MS, false, None),
    ];
    evict(&mut v, NOW);
    let left: Vec<&str> = v.iter().map(|e| e.id.as_str()).collect();
    // Three thirds and the pinned one just fit: MAX_TOTAL_BYTES leaves 1 over.
    assert_eq!(MAX_TOTAL_BYTES % 3, 1);
    assert_eq!(left, vec!["a", "b", "c", "e"]);
}
