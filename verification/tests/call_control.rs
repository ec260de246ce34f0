use vortex::call_control::is_plain_number;

#[test]
fn accepts_real_numbers_and_refuses_control_codes() {
    for ok in ["+998901234567", "0555 123 456", "(212) 555-0100", "555.0100"] {
        assert!(is_plain_number(ok), "should dial: {ok}");
    }
    for bad in [
        "*21*555123#",
        "**04*1111*2222*2222#",
        "#31#0555123456",
        "*#06#",
        "PAYPAL",
    ] {
        assert!(!is_plain_number(bad), "must not dial: {bad}");
    }
}
