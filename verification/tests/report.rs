use revhz::report::{
    discovery_line, live_line, push_decimal, push_digits, push_name, render_name, summary_line,
};

#[test]
fn a_valid_name_is_shown_as_it_is() {
    assert_eq!(render_name(b"Logitech USB Mouse"), "Logitech USB Mouse");
    assert_eq!(render_name("Tastatur \u{fc}ber USB".as_bytes()), "Tastatur \u{fc}ber USB");
    assert_eq!(render_name(b""), "");
}

#[test]
fn an_invalid_name_is_shown_as_error() {
    assert_eq!(render_name(&[0xff, 0xfe, b'a']), "ERROR");
    assert_eq!(render_name(&[b'o', b'k', 0x80]), "ERROR");
    assert_eq!(render_name(&[0xc0, 0x80]), "ERROR");
    assert_eq!(render_name(&[0xed, 0xa0, 0x80]), "ERROR");
    assert_eq!(render_name(&[0xe2, 0x82]), "ERROR");
}

#[test]
fn a_blank_name_buffer_is_valid_text() {
    let blank = [0u8; 128];
    assert_eq!(render_name(&blank), "\0".repeat(128));
}

#[test]
fn digits_of_naturals() {
    for (n, text) in [
        (0u64, "0"),
        (7, "7"),
        (9, "9"),
        (10, "10"),
        (49, "49"),
        (100, "100"),
        (1000, "1000"),
        (1234567890, "1234567890"),
        (u64::MAX, "18446744073709551615"),
    ] {
        let mut out = String::new();
        push_digits(&mut out, n);
        assert_eq!(out, text);
    }
    let mut out = String::from("n=");
    push_digits(&mut out, 305);
    assert_eq!(out, "n=305");
}

#[test]
fn decimal_of_integers() {
    for (v, text) in [
        (0i64, "0"),
        (1, "1"),
        (-1, "-1"),
        (1000, "1000"),
        (-2147483648, "-2147483648"),
        (i64::MAX, "9223372036854775807"),
        (i64::MIN, "-9223372036854775808"),
    ] {
        let mut out = String::new();
        push_decimal(&mut out, v);
        assert_eq!(out, text);
    }
}

#[test]
fn names_are_appended() {
    let mut out = String::from("[");
    push_name(&mut out, b"pad");
    push_name(&mut out, &[0xff]);
    assert_eq!(out, "[padERROR");
}

#[test]
fn discovery_line_names_the_index() {
    assert_eq!(discovery_line(3, b"AT Keyboard"), "device 3: AT Keyboard");
    assert_eq!(discovery_line(0, b""), "device 0: ");
    assert_eq!(discovery_line(49, &[0x80]), "device 49: ERROR");
}

#[test]
fn live_line_gives_latest_and_average() {
    assert_eq!(live_line(b"Mouse", 125, 124), "Mouse: latest 125 Hz, average 124 Hz");
    assert_eq!(live_line(&[0xff], 1, 1000), "ERROR: latest 1 Hz, average 1000 Hz");
    assert_eq!(live_line(b"x", -5, 0), "x: latest -5 Hz, average 0 Hz");
}

#[test]
fn summary_line_gives_the_average() {
    assert_eq!(summary_line(b"Mouse", 500), "average for Mouse: 500 Hz");
    assert_eq!(summary_line(&[0xc3], 7), "average for ERROR: 7 Hz");
}
