use vortex::call::{CallEffect, CallEvent, CallPhase, CallState, BANNER_STALE_MS};
use vortex::call_control::{
    route_key, route_pill, CallAction, CallVerb, DialRefusal, KeyRoute, Outbox, PillRoute,
};
use vortex::call_log::{history_since, merge_history, CallLogEntry};
use vortex::contacts::{cache_hash, lookup_number_by_name, number_of_folded, Contact};
use vortex::lan::{preferred_address, HostAddr};
use vortex::sms::{extract_otp_from, parse_chunk, SmsAssembler};

fn contact(name: &str, numbers: &[&str]) -> Contact {
    Contact {
        name: name.to_string(),
        numbers: numbers.iter().map(|n| n.to_string()).collect(),
    }
}

#[test]
fn a_contact_is_found_whatever_the_capitals() {
    let all = vec![
        contact("Ann", &["1"]),
        contact("  МАМА ", &["", "  ", "+998 90 1"]),
        contact("мама", &["2"]),
        contact("Empty", &[]),
    ];
    assert_eq!(lookup_number_by_name(&all, "мама").as_deref(), Some("+998 90 1"));
    assert_eq!(lookup_number_by_name(&all, " aNN\t").as_deref(), Some("1"));
    assert_eq!(lookup_number_by_name(&all, "bob"), None);
    assert_eq!(lookup_number_by_name(&all, "empty"), None);
    assert_eq!(lookup_number_by_name(&all, "   "), None);
}

#[test]
fn the_first_folded_name_counts() {
    let all = vec![contact("A", &["1"]), contact("B", &["2"])];
    let names = vec!["same".to_string(), "same".to_string()];
    assert_eq!(number_of_folded(&all, &names, "same").as_deref(), Some("1"));
    assert_eq!(number_of_folded(&all, &names, ""), None);
}

#[test]
fn the_mark_of_a_copy_is_its_digest() {
    assert_eq!(cache_hash(&None), "");
    assert_eq!(
        cache_hash(&Some(b"abc".to_vec())),
        "ba7816bf8f01cfea414140de5dae2223b00361a396177a9cb410ff61f20015ad"
    );
    assert_eq!(
        cache_hash(&Some(Vec::new())),
        "e3b0c44298fc1c149afbf4c8996fb92427ae41e4649b934ca495991b7852b855"
    );
}

fn call(id: &str, date: i64, rest: &str) -> CallLogEntry {
    CallLogEntry { id: id.to_string(), date, rest: rest.to_string() }
}

#[test]
fn a_batch_is_merged_by_name_and_sorted_by_date() {
    let store = vec![call("a", 30, "old"), call("b", 10, "kept")];
    let batch = vec![call("c", 20, "new"), call("a", 5, "newer"), call("c", 25, "newest")];
    let (merged, since) = merge_history(store, batch).unwrap();
    assert_eq!(merged, vec![call("a", 5, "newer"), call("b", 10, "kept"), call("c", 25, "newest")]);
    assert_eq!(since, 25);
}

#[test]
fn an_empty_batch_changes_nothing() {
    assert!(merge_history(vec![call("a", 1, "")], Vec::new()).is_none());
}

#[test]
fn the_watermark_is_read_leniently() {
    assert_eq!(history_since(&None), 0);
    assert_eq!(history_since(&Some(" -17\n".to_string())), -17);
    assert_eq!(history_since(&Some("+1700".to_string())), 1700);
    assert_eq!(history_since(&Some("-9223372036854775808".to_string())), i64::MIN);
    assert_eq!(history_since(&Some("9223372036854775808".to_string())), 0);
    assert_eq!(history_since(&Some("12 3".to_string())), 0);
    assert_eq!(history_since(&Some("".to_string())), 0);
    assert_eq!(history_since(&Some("-".to_string())), 0);
}

#[test]
fn an_address_of_the_fourth_version_is_preferred() {
    let v6 = HostAddr::V6([1; 16]);
    let v4 = HostAddr::V4([192, 168, 0, 2]);
    assert_eq!(preferred_address(&vec![v6, v4, HostAddr::V4([0; 4])]), Some(v4));
    assert_eq!(preferred_address(&vec![v6]), Some(v6));
    assert_eq!(preferred_address(&Vec::new()), None);
}

fn event(phase: CallPhase, id: &str) -> CallEvent {
    CallEvent {
        id: id.to_string(),
        phase,
        name: "Ann".to_string(),
        number: "+1 555".to_string(),
        app_id: "dialer".to_string(),
        outgoing: false,
        connected: false,
        muted: false,
        speaker: false,
        has_earbuds: false,
        started_at: 0,
        sent_at: 0,
    }
}

#[test]
fn an_incoming_call_rings_runs_and_ends() {
    let mut st = CallState::new();
    let ringing = event(CallPhase::Ringing, "c1");
    let effects = st.on_event(&ringing, 1_000);
    assert_eq!(effects.len(), 2);
    assert!(matches!(effects[0], CallEffect::Nudge));
    match &effects[1] {
        CallEffect::ShowBanner { title, body, app_id, replaces, urgent } => {
            assert_eq!(title, "Ann");
            assert_eq!(body, "Incoming call · +1 555");
            assert_eq!(app_id, "dialer");
            assert_eq!(*replaces, 0);
            assert!(*urgent);
        }
        _ => panic!("no banner"),
    }
    st.banner_shown(7, &ringing);
    assert!(st.call_pill_active());
    assert_eq!(st.current_call_id, "c1");

    let mut active = event(CallPhase::Active, "c1");
    active.started_at = 90_000;
    active.sent_at = 100_000;
    let effects = st.on_event(&active, 5_000);
    assert_eq!(effects.len(), 3);
    assert!(matches!(effects[0], CallEffect::CloseBanner(7)));
    match &effects[1] {
        CallEffect::Publish(pill) => {
            assert_eq!(pill.key, "vortex-call");
            assert_eq!(pill.app, "Phone");
            assert_eq!(pill.title, "Ann");
            assert_eq!(pill.text, "On call");
            assert_eq!(pill.started_at, -5_000);
            assert_eq!(pill.progress, -1);
            assert!(!pill.ended);
        }
        _ => panic!("no pill"),
    }
    assert!(matches!(effects[2], CallEffect::KeepAlive(2)));
    assert!(st.keep_alive(2, true).is_some());
    assert!(st.keep_alive(2, false).is_none());
    assert!(st.keep_alive(1, true).is_none());

    // The same report over the other transport does nothing.
    assert!(st.on_event(&active, 9_000).is_empty());

    let effects = st.on_event(&event(CallPhase::Ended, "c1"), 10_000);
    assert_eq!(effects.len(), 1);
    assert!(matches!(&effects[0], CallEffect::Publish(p) if p.ended && p.key == "vortex-call"));
    assert!(!st.call_pill_active());
    assert_eq!(st.call_id, "");
    assert_eq!(st.current_call_id, "");
    assert_eq!(st.banner_id, 0);
}

#[test]
fn a_call_that_ends_while_ringing_was_missed() {
    let mut st = CallState::new();
    let ringing = event(CallPhase::Ringing, "c1");
    st.on_event(&ringing, 0);
    st.banner_shown(7, &ringing);
    let effects = st.on_event(&event(CallPhase::Ended, "c1"), 0);
    assert_eq!(effects.len(), 3);
    assert!(matches!(effects[0], CallEffect::CloseBanner(7)));
    assert!(matches!(
        &effects[1],
        CallEffect::ShowMissed { title, number, .. } if title == "Ann" && number == "+1 555"
    ));
    // An outgoing call cannot be missed.
    let mut st = CallState::new();
    st.banner_id = 9;
    let mut ended = event(CallPhase::Ended, "c2");
    ended.outgoing = true;
    assert_eq!(st.on_event(&ended, 0).len(), 2);
}

#[test]
fn an_outgoing_call_shows_its_timer_once_it_is_answered() {
    let mut st = CallState::new();
    let mut out = event(CallPhase::Active, "c3");
    out.outgoing = true;
    out.name = String::new();
    let effects = st.on_event(&out, 50);
    assert!(matches!(
        &effects[1],
        CallEffect::Publish(p) if p.text == "Calling…" && p.started_at == 0 && p.title == "+1 555"
    ));
    out.connected = true;
    out.muted = true;
    let effects = st.on_event(&out, 60);
    assert!(matches!(
        &effects[..],
        [CallEffect::Publish(p)] if p.text == "On call" && p.started_at == 60 && p.muted
    ));
    // Toggling the microphone later leaves the timer where it is.
    out.muted = false;
    let effects = st.on_event(&out, 99);
    assert!(matches!(&effects[..], [CallEffect::Publish(p)] if p.started_at == 60 && !p.muted));
}

#[test]
fn a_swept_pill_is_built_again() {
    let mut st = CallState::new();
    let active = event(CallPhase::Active, "c1");
    st.on_event(&active, 10);
    assert!(st.on_event(&active, 20).is_empty());
    st.pill_swept();
    let effects = st.on_event(&active, 30);
    assert_eq!(effects.len(), 3);
    assert!(matches!(effects[0], CallEffect::Nudge));
}

#[test]
fn an_unknown_phase_is_noted_and_nothing_more() {
    let mut st = CallState::new();
    assert!(st.on_event(&event(CallPhase::Other("held".to_string()), "c1"), 0).is_empty());
    assert_eq!(st.generation, 1);
    assert!(!st.call_pill_active());
    st.set_current_call_id("x");
    assert_eq!(st.current_call_id, "x");
}

#[test]
fn the_watchdog_closes_a_banner_whose_buttons_cannot_work() {
    let mut st = CallState::new();
    let ringing = event(CallPhase::Ringing, "c1");
    st.on_event(&ringing, 0);
    st.banner_shown(7, &ringing);
    assert_eq!(st.watchdog(BANNER_STALE_MS), None);
    assert_eq!(st.watchdog(BANNER_STALE_MS + 1), Some(7));
    assert_eq!(st.call_id, "");
    assert_eq!(st.watchdog(u64::MAX), None);
}

#[test]
fn the_first_dismissal_silences_and_the_second_counts() {
    let mut st = CallState::new();
    let ringing = event(CallPhase::Ringing, "c1");
    st.on_event(&ringing, 0);
    st.banner_shown(7, &ringing);
    assert!(st.on_closed(7, 3).is_none());
    assert!(st.on_closed(8, 2).is_none());
    let quiet = st.on_closed(7, 2).unwrap();
    assert_eq!(quiet.call_id, "c1");
    assert_eq!(quiet.title, "Ann");
    assert_eq!(quiet.body, "Incoming call · +1 555");
    st.quiet_shown(8);
    assert_eq!(st.banner_id, 8);
    assert!(st.on_closed(8, 2).is_none());
    // Nothing is noted for a call that is gone.
    let mut st = CallState::new();
    st.quiet_shown(5);
    assert_eq!(st.banner_id, 0);
}

#[test]
fn banner_keys_find_their_commands() {
    for (key, verb) in [
        ("call:accept", CallVerb::Accept),
        ("call:decline", CallVerb::Decline),
        ("call:end", CallVerb::End),
        ("call:mute", CallVerb::Mute),
        ("call:unmute", CallVerb::Unmute),
        ("call:speaker_on", CallVerb::SpeakerOn),
        ("call:speaker_off", CallVerb::SpeakerOff),
        ("call:silence", CallVerb::Silence),
        ("call:sms", CallVerb::SmsReject),
    ] {
        assert!(matches!(route_key(key), KeyRoute::Act(v) if v == verb), "{key}");
    }
    assert!(matches!(route_key("act:0"), KeyRoute::NotOurs));
    assert!(matches!(route_key("call:dance"), KeyRoute::Unknown));
    assert!(matches!(route_key("call:redial:+1 555"), KeyRoute::Redial(n) if n == "+1 555"));
}

#[test]
fn pill_buttons_find_their_commands() {
    assert!(matches!(
        route_pill("media_next:com.player:x"),
        PillRoute::Media { act, package } if act == "media_next" && package == "com.player:x"
    ));
    assert!(matches!(
        route_pill("media_next"),
        PillRoute::Media { act, package } if act == "media_next" && package.is_empty()
    ));
    assert!(matches!(route_pill("mute"), PillRoute::Call(w) if w == "mute"));
}

#[test]
fn commands_are_numbered_and_kept_only_when_the_radio_fails() {
    let mut out = Outbox::new();
    assert!(out.call_control(CallAction::Known(CallVerb::Accept), "").is_none());
    let a = out.call_control(CallAction::Known(CallVerb::Accept), "c1").unwrap();
    assert_eq!((a.id.as_str(), a.arg.as_str(), a.seq), ("c1", "", 1));
    assert!(!out.settle(a, true));
    assert!(out.take_pending().is_none());
    let m = out.media_control("media_next", "com.player");
    assert_eq!((m.id.as_str(), m.arg.as_str(), m.seq), ("", "com.player", 2));
    assert!(matches!(&m.action, CallAction::Words(w) if w == "media_next"));
    assert!(out.settle(m, false));
    let kept = out.take_pending().unwrap();
    assert_eq!(kept.seq, 2);
    assert!(out.take_pending().is_none());
}

#[test]
fn dialling_takes_plain_numbers_only() {
    let mut out = Outbox::new();
    assert!(matches!(out.dial("  "), Err(DialRefusal::Empty)));
    assert!(matches!(out.dial("*21*555123#"), Err(DialRefusal::NotPlain)));
    assert!(matches!(out.dial("+-."), Err(DialRefusal::NotPlain)));
    let c = out.dial(" +1 (555) 01.2-3\n").unwrap();
    assert_eq!(c.arg, "+1 (555) 01.2-3");
    assert_eq!(c.seq, 1);
    assert!(matches!(c.action, CallAction::Known(CallVerb::OriginateCall)));
}

#[test]
fn messages_travel_as_json() {
    let mut out = Outbox::new();
    assert!(out.send_sms("", "hi").is_none());
    assert!(out.send_sms("1", "").is_none());
    let c = out.send_sms(" 1 ", "say \"hi\"\n").unwrap();
    assert_eq!(c.arg, "{\"body\":\"say \\\"hi\\\"\\n\",\"to\":\"1\"}");
    assert!(matches!(c.action, CallAction::Known(CallVerb::SendSms)));
    let r = out.mark_sms_read(-3, " 7 ");
    assert_eq!(r.arg, "{\"address\":\"7\",\"thread\":-3}");
    let l = out.load_sms_thread(4, "7", -5, 1_000);
    assert_eq!(l.arg, "{\"address\":\"7\",\"limit\":200,\"offset\":0,\"thread\":4}");
    let l = out.load_sms_thread(4, "7", 9, 0);
    assert_eq!(l.arg, "{\"address\":\"7\",\"limit\":1,\"offset\":9,\"thread\":4}");
    assert_eq!(l.seq, 4);
}

#[test]
fn a_chunk_frame_is_read_high_byte_first() {
    assert_eq!(parse_chunk(&[1, 2, 0, 3, 9, 8]), Some((258, 3, vec![9, 8])));
    assert_eq!(parse_chunk(&[0, 1, 0, 0]), Some((1, 0, vec![])));
    assert_eq!(parse_chunk(&[0, 1, 0]), None);
}

#[test]
fn chunks_may_come_in_any_order() {
    let mut parts = SmsAssembler::default();
    assert_eq!(parts.add(3, 2, b"c".to_vec()), None);
    assert_eq!(parts.add(3, 0, b"a".to_vec()), None);
    assert_eq!(parts.add(3, 0, b"a".to_vec()), None);
    assert_eq!(parts.add(3, 1, b"b".to_vec()), Some(b"abc".to_vec()));
    // Another announced number starts over.
    assert_eq!(parts.add(2, 0, b"x".to_vec()), None);
    assert_eq!(parts.add(3, 0, b"a".to_vec()), None);
    assert_eq!(parts.add(2, 1, b"y".to_vec()), None);
    assert_eq!(parts.add(2, 2, b"z".to_vec()), None);
    assert_eq!(parts.add(0, 0, b"z".to_vec()), None);
    assert_eq!(parts.add(2, 0, b"x".to_vec()), Some(b"xy".to_vec()));
}

#[test]
fn the_first_of_equal_codes_is_offered() {
    let body = "code 1111 2222";
    let word: Vec<bool> = body.chars().map(|c| c.is_alphanumeric()).collect();
    assert_eq!(extract_otp_from(body, body, &word).as_deref(), Some("1111"));
    // Without a word that describes it a number is no code.
    assert_eq!(extract_otp_from(body, body, &vec![true; word.len()]), None);
}
