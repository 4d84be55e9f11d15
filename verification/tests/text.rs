use cachew::errors::authentication_errors::{AuthenticationError, AuthenticationErrorType};
use cachew::errors::protocol_errors::{ProtocolError, ProtocolErrorType};
use cachew::numbers::{float_text, parse_i32, push_decimal, push_signed_decimal};
use cachew::text::{
    chars_of, has_char, has_prefix, push_escaped, same_text, text_less, trim_text, trim_window,
    whitespace,
};

#[test]
fn integers_are_read_like_the_standard_library_reads_them() {
    let samples = [
        "0", "7", "-7", "+7", "007", "-0", "+0", "2147483647", "2147483648", "-2147483648",
        "-2147483649", "", "-", "+", "--1", "1-", " 1", "1 ", "1_000", "0x10", "12a", "٣",
        "99999999999999999999999999", "-99999999999999999999999999", "00000000000000000000001",
        "+-1", "1.0", "1e3",
    ];
    for sample in samples {
        assert_eq!(parse_i32(sample), sample.parse::<i32>().ok(), "{:?}", sample);
    }
}

#[test]
fn floats_are_recognised_like_the_standard_library_reads_them() {
    let samples = [
        "0", "1", "-1", "+1", "1.", ".5", "-.5", "+.5e3", "1.5", "0.95", "1e3", "1E3", "1e+3",
        "1e-3", "1.e3", ".e3", "e3", "1e", "1e+", ".", "", "+", "-", "inf", "-inf", "+INF",
        "Infinity", "infinit", "nan", "NaN", "-nan", "nane", "1_0", "0x1p3", " 1", "1 ", "1,5",
        "1.5.2", "1e3e4", "١", "notanumber", "123456789012345678901234567890", "1e99999",
        "--1", "1f", "infinityy",
    ];
    for sample in samples {
        assert_eq!(float_text(sample), sample.parse::<f32>().is_ok(), "{:?}", sample);
    }
}

#[test]
fn numbers_are_written_in_decimal() {
    for n in [0u64, 1, 9, 10, 11, 99, 100, 12345, u64::MAX] {
        let mut text = String::from("n=");
        push_decimal(&mut text, n);
        assert_eq!(text, format!("n={}", n));
    }
    for i in [0i32, 1, -1, 10, -10, 2147483647, -2147483648, -100] {
        let mut text = String::new();
        push_signed_decimal(&mut text, i);
        assert_eq!(text, i.to_string());
    }
}

#[test]
fn texts_are_ordered_like_strings() {
    let samples = ["", "a", "aa", "ab", "b", "B", "key1", "key10", "key2", "é", "z", "\u{10000}"];
    for a in samples {
        for b in samples {
            assert_eq!(text_less(a, b), a < b, "{:?} {:?}", a, b);
            assert_eq!(same_text(a, b), a == b);
        }
    }
}

#[test]
fn trimming_removes_what_the_standard_library_removes() {
    let samples = ["", " ", "  a  ", "\ta b\n", "\u{a0}x\u{3000}", "x", " \u{85} ", "\u{200b}x"];
    for sample in samples {
        assert_eq!(trim_text(sample), sample.trim());
        let characters = chars_of(sample);
        let (from, to) = trim_window(&characters, 0, characters.len(), false);
        let kept: String = characters[from..to].iter().collect();
        assert_eq!(kept, sample.trim_matches(' '));
    }
    for code in 0u32..0x3100 {
        if let Some(c) = char::from_u32(code) {
            assert_eq!(whitespace(c), c.is_whitespace());
        }
    }
}

#[test]
fn prefixes_and_characters_are_found() {
    let characters = chars_of("GET key");
    assert_eq!(characters, vec!['G', 'E', 'T', ' ', 'k', 'e', 'y']);
    assert!(has_prefix(&characters, "GET "));
    assert!(has_prefix(&characters, ""));
    assert!(!has_prefix(&characters, "GET key "));
    assert!(!has_prefix(&characters, "SET"));
    assert!(has_char(&characters, ' '));
    assert!(!has_char(&characters, ','));
}

#[test]
fn line_feeds_are_escaped() {
    let mut text = String::from("'");
    push_escaped(&mut text, "/\n");
    assert_eq!(text, "'/\\n");
    let mut text = String::new();
    push_escaped(&mut text, "a\nb\n\nc");
    assert_eq!(text, "a\\nb\\n\\nc");
}

#[test]
fn each_protocol_error_has_its_text() {
    assert_eq!(
        ProtocolError { error_type: ProtocolErrorType::EmptyRequest }.to_string(),
        "ProtocolError 'emptyRequest': Can't process empty request."
    );
    assert_eq!(
        ProtocolError { error_type: ProtocolErrorType::StartMarkerNotFound("CASP/".to_string()) }
            .to_string(),
        "ProtocolError 'startMarkerNotFound': Expected request to start with 'CASP/'."
    );
    assert_eq!(
        ProtocolError { error_type: ProtocolErrorType::EndMarkerNotFound("/\n".to_string()) }
            .to_string(),
        "ProtocolError 'endMarkerNotFound': Expected request to end with '/\\n'."
    );
}

#[test]
fn each_authentication_error_has_its_text() {
    assert_eq!(
        AuthenticationError { error_type: AuthenticationErrorType::NotAuthenticated }.to_string(),
        "AuthenticationError 'notAuthenticated': Please authenticate before executing queries."
    );
    assert_eq!(
        AuthenticationError { error_type: AuthenticationErrorType::AuthenticationFailed }
            .to_string(),
        "AuthenticationError 'authenticationFailed': Wrong password."
    );
}
