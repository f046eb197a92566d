use ports_panel::launch::is_bind_failure;
use ports_panel::panel::parse_port;
use ports_panel::text::{chars_of, contains_text, decimal_text, lower_chars, parse_u16, trim, white_space};

#[test]
fn test_parse_port() {
    assert_eq!(parse_port(""), None);
    assert_eq!(parse_port("   "), None);
    assert_eq!(parse_port("not-a-port"), None);
    assert_eq!(parse_port("70000"), None);
    assert_eq!(parse_port(" 8080 "), Some(8080));
    assert_eq!(parse_port("0"), Some(0));
}

#[test]
fn test_is_bind_failure() {
    assert!(is_bind_failure(
        "bind [127.0.0.1]:8080: Address already in use"
    ));
    assert!(is_bind_failure("cannot listen to port: 8080"));
    assert!(is_bind_failure("bind: Cannot assign requested address"));
    assert!(!is_bind_failure("Warning: Permanently added host"));
}

#[test]
fn bind_failures_in_any_case() {
    assert!(is_bind_failure("PERMISSION DENIED"));
    assert!(is_bind_failure("pErMiSsIoN dEnIeD"));
    assert!(is_bind_failure("Bind: nothing"));
    assert!(!is_bind_failure("bind "));
    assert!(!is_bind_failure(""));
    // Only ASCII letters are folded.
    assert!(!is_bind_failure("B\u{0130}ND:"));
}

#[test]
fn ports_are_read_like_the_standard_library_reads_them() {
    let samples = [
        "", "+", "-", "+1", "-1", "-0", "++1", "00080", "+00080", "65535", "65536", "065535",
        "99999999999999999999", "1 2", "0x10", "1_000", "8080a", "a8080", "\u{0661}", "1+", "6553a",
        "655360", "+65536", "12345678901",
    ];
    for sample in samples {
        assert_eq!(parse_port(sample), sample.trim().parse::<u16>().ok(), "{sample}");
        let padded = format!("\t {sample}\u{3000}\n");
        assert_eq!(parse_port(&padded), padded.trim().parse::<u16>().ok(), "{sample}");
        assert_eq!(parse_u16(&chars_of(sample)), sample.parse::<u16>().ok(), "{sample}");
    }
}

#[test]
fn every_port_is_read_back_from_its_decimal_form() {
    for port in 0..=u16::MAX {
        let text = decimal_text(port);
        assert_eq!(text, port.to_string());
        assert_eq!(parse_port(&format!(" {text}\t")), Some(port));
    }
}

#[test]
fn white_space_is_that_of_the_standard_library() {
    for code in 0..=0x10ffffu32 {
        if let Some(c) = char::from_u32(code) {
            assert_eq!(white_space(c), c.is_whitespace(), "{code:x}");
        }
    }
}

#[test]
fn trimming_and_searching() {
    let samples = ["", " ", "a", " a ", "\u{a0}x y\u{2003}", "\n\n", "é ", " — "];
    for sample in samples {
        assert_eq!(trim(sample), sample.trim());
        let lowered: String = lower_chars(sample).into_iter().collect();
        assert_eq!(lowered, sample.to_ascii_lowercase());
    }
    let lowered: String = lower_chars("AZ[@`az É").into_iter().collect();
    assert_eq!(lowered, "AZ[@`az É".to_ascii_lowercase());
    for (text, pattern) in [("abc", ""), ("", ""), ("", "a"), ("aab", "ab"), ("abab", "abc"), ("xé", "é")] {
        assert_eq!(contains_text(&chars_of(text), pattern), text.contains(pattern));
    }
}
