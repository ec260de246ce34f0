use vortex::sms::{
    extract_otp, extract_otp_among, extract_otp_from, newest_unread, SmsAssembler, SmsMessage,
    MAX_CHUNKS,
};

#[test]
fn hint_words_inside_other_words_do_not_count() {
    // "shipping" contains "pin"; "barcode" and "postcode" contain "code";
    // "Kodak" contains "kod". None of these is a login code.
    for body in [
        "Your order 48213 is shipping",
        "Scan barcode 99187 at the till",
        "Delivery to postcode 10025 confirmed",
        "Kodak order 55512 is ready",
    ] {
        assert_eq!(extract_otp(body), None, "must not treat as an OTP: {body}");
    }
}

#[test]
fn a_real_code_is_still_found() {
    assert_eq!(extract_otp("Your code is 481923"), Some("481923".to_string()));
    assert_eq!(extract_otp("123456 is your verification code"), Some("123456".to_string()));
}

#[test]
fn a_far_away_hint_does_not_elect_an_unrelated_number() {
    let body = "Payment of 500000 sum accepted. Thank you for shopping with us \
                today, and remember you can reach support any time. Reference code";
    assert_eq!(extract_otp(body), None);
}

#[test]
fn finds_codes_in_the_three_languages_a_phone_here_receives() {
    assert_eq!(extract_otp("Your code is 483920").as_deref(), Some("483920"));
    assert_eq!(
        extract_otp("Tasdiqlash kodi: 4821").as_deref(),
        Some("4821")
    );
    assert_eq!(
        extract_otp("Ваш код подтверждения: 90210").as_deref(),
        Some("90210")
    );
    // Hint after the number.
    assert_eq!(
        extract_otp("123456 is your verification code").as_deref(),
        Some("123456")
    );
}

#[test]
fn picks_the_number_the_hint_word_describes() {
    assert_eq!(
        extract_otp("Xarid: 50000 sum. Tasdiqlash kodi 1234").as_deref(),
        Some("1234")
    );
}

#[test]
fn ignores_messages_with_no_hint_word() {
    assert_eq!(extract_otp("Balansingiz 45000 so'm"), None);
    assert_eq!(extract_otp("See you at 1830"), None);
}

#[test]
fn skips_phone_numbers_amounts_dates_and_ids() {
    assert_eq!(extract_otp("Kod uchun qo'ng'iroq: +998901234567"), None);
    assert_eq!(extract_otp("kod: 1.234.567"), None);
    assert_eq!(extract_otp("kodi 2026-07-28"), None);
    assert_eq!(extract_otp("kod ID4821X"), None);
    // 16 digits is a card, not a code.
    assert_eq!(extract_otp("kod 8600123412341234"), None);
}

#[test]
fn rejects_total_above_cap() {
    let mut parts = SmsAssembler::default();
    assert!(parts.add(MAX_CHUNKS + 1, 0, b"x".to_vec()).is_none());
    assert_eq!(parts.add(1, 0, b"ok".to_vec()), Some(b"ok".to_vec()));
}

#[test]
fn the_number_nearest_to_a_hint_wins_whatever_its_length() {
    assert_eq!(extract_otp("code 1234 567890").as_deref(), Some("1234"));
    assert_eq!(extract_otp("567890 or code 1234").as_deref(), Some("1234"));
    // Of two as near, the one of the more usual length.
    assert_eq!(extract_otp("code 1234, pin 567890").as_deref(), Some("567890"));
    // A hint behind a number counts for less than one before another.
    assert_eq!(extract_otp("50000 sum. code for you: 1234").as_deref(), Some("1234"));
}

#[test]
fn a_number_glued_to_a_letter_of_any_script_is_no_code() {
    assert_eq!(extract_otp("\u{43a}\u{43e}\u{434} \u{411}4821"), None);
    assert_eq!(extract_otp("\u{43a}\u{43e}\u{434} 4821\u{411}"), None);
    assert_eq!(extract_otp("\u{43a}\u{43e}\u{434} 4821").as_deref(), Some("4821"));
    // A sign of another script is no letter.
    assert_eq!(extract_otp("\u{43a}\u{43e}\u{434} \u{2116}4821").as_deref(), Some("4821"));
    assert_eq!(extract_otp("\u{43a}\u{43e}\u{434} \u{2014}4821").as_deref(), Some("4821"));
}

#[test]
fn letters_are_taken_as_they_are_told() {
    let body = "code *1234";
    let word: Vec<bool> = body.chars().map(|c| c.is_alphanumeric()).collect();
    assert_eq!(extract_otp_from(body, body, &word).as_deref(), Some("1234"));
    let mut letters = vec![false; body.len()];
    assert_eq!(extract_otp_among(body, &letters, body, &word).as_deref(), Some("1234"));
    letters[5] = true;
    assert_eq!(extract_otp_among(body, &letters, body, &word), None);
}

#[test]
fn a_stream_comes_out_whole_in_any_order() {
    let parts: Vec<Vec<u8>> = vec![b"one ".to_vec(), b"two ".to_vec(), b"three".to_vec()];
    for order in [[0usize, 1, 2], [0, 2, 1], [1, 0, 2], [1, 2, 0], [2, 0, 1], [2, 1, 0]] {
        let mut all = SmsAssembler::default();
        // A second stream follows the first on the same assembler.
        for _ in 0..2 {
            for (n, i) in order.iter().enumerate() {
                assert_eq!(all.add(0, 0, b"refused".to_vec()), None);
                assert_eq!(all.add(3, 3, b"refused".to_vec()), None);
                assert_eq!(all.add(MAX_CHUNKS + 1, 0, b"refused".to_vec()), None);
                let got = all.add(3, *i as u16, parts[*i].clone());
                let want = if n == 2 { Some(b"one two three".to_vec()) } else { None };
                assert_eq!(got, want);
            }
            assert_eq!(all.add(7, 7, b"refused".to_vec()), None);
        }
    }
}

#[test]
fn the_newest_unread_message_is_found() {
    let m = |kind: i32, date: i64, read: i32| SmsMessage {
        id: String::new(),
        address: String::new(),
        body: String::new(),
        kind,
        date,
        thread: 0,
        read,
    };
    assert_eq!(newest_unread(&vec![]), None);
    assert_eq!(newest_unread(&vec![m(2, 9, 0), m(1, 9, 1)]), None);
    assert_eq!(newest_unread(&vec![m(1, 5, 0), m(1, 3, 0), m(2, 9, 0)]), Some(0));
    assert_eq!(newest_unread(&vec![m(1, 5, 0), m(1, 5, 0), m(1, 4, 0)]), Some(1));
}

#[test]
fn only_a_letter_makes_a_run_of_digits_a_reference() {
    assert_eq!(extract_otp("code 1234²").as_deref(), Some("1234"));
    assert_eq!(extract_otp("code 1234ª"), None);
    assert_eq!(extract_otp("code 1234я"), None);
}
