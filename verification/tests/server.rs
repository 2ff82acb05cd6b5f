use fsonline::args::{Args, UsesHttps};
use fsonline::custom_extractor::DontLog;
use fsonline::error::{request_log_level, LogLevel, WebError};
use fsonline::text;

fn args(cert: Option<&str>, key: Option<&str>) -> Args {
    Args {
        port: 3000,
        ssl_key_path: key.map(|k| k.to_owned()),
        ssl_cert_path: cert.map(|c| c.to_owned()),
        headless_browser: true,
        host: "localhost".to_owned(),
        cache_path: "./cache".to_owned(),
        master_cache_size: 1024,
        memory_segments_cache_size: 1024,
        file_segments_cache_size_mb: 15,
        cache_next_segments: 10,
    }
}

#[test]
fn encryption_needs_a_certificate_and_a_key() {
    assert_eq!(
        args(Some("c"), Some("k")).tls_paths(),
        Some(("c".to_owned(), "k".to_owned()))
    );
    assert_eq!(args(Some("c"), Some("k")).uses_https(), UsesHttps(true));
    for (cert, key) in [(None, None), (Some("c"), None), (None, Some("k"))] {
        assert_eq!(args(cert, key).tls_paths(), None);
        assert_eq!(args(cert, key).uses_https(), UsesHttps(false));
    }
    assert_eq!(args(None, None).file_segments_cache_size(), 15 * 1024 * 1024);
}

#[test]
fn errors_are_sent_with_their_message() {
    let (status, response) = WebError::Other("No data stream".to_owned()).into_response();
    assert_eq!(status, 500);
    assert_eq!(response.reason, "other");
    assert_eq!(response.message, "No data stream");
}

#[test]
fn answers_in_the_log() {
    assert_eq!(request_log_level(Some(DontLog)), LogLevel::Debug);
    assert_eq!(request_log_level(None), LogLevel::Info);
}

fn chars(s: &str) -> Vec<char> {
    s.chars().collect()
}

#[test]
fn pieces_of_texts() {
    assert_eq!(
        text::split(&chars("a::b"), ':'),
        vec![chars("a"), chars(""), chars("b")]
    );
    assert_eq!(text::split(&chars(""), ':'), vec![chars("")]);
    assert_eq!(text::after_first(&chars("a/b/c"), '/'), Some(chars("b/c")));
    assert_eq!(text::after_first(&chars("abc"), '/'), None);
    assert_eq!(text::trim(&chars(" \u{a0}a b\n")), chars("a b"));
    assert_eq!(text::trim(&chars("  ")), chars(""));
    assert_eq!(text::replace(&chars("a b c"), ' ', '-'), chars("a-b-c"));
    assert!(text::contains(&chars("abcabd"), &chars("abd")));
    assert!(!text::contains(&chars("abcab"), &chars("abd")));
    assert!(text::contains(&chars(""), &chars("")));
    assert!(text::starts_with(&chars("abc"), &chars("ab")));
    assert!(!text::starts_with(&chars("a"), &chars("ab")));
    assert!(text::ends_with(&chars("abc"), &chars("bc")));
    assert!(!text::ends_with(&chars("abc"), &chars("ab")));
    assert!(text::str_eq("é", "é"));
    assert!(!text::str_eq("e", "ee"));
}

#[test]
fn numbers_in_texts() {
    assert_eq!(text::parse_decimal(&chars("00012"), 100), Some(12));
    assert_eq!(text::parse_decimal(&chars("+7"), 100), Some(7));
    assert_eq!(text::parse_decimal(&chars("101"), 100), None);
    assert_eq!(text::parse_decimal(&chars("18446744073709551615"), u64::MAX), Some(u64::MAX));
    assert_eq!(text::parse_decimal(&chars("18446744073709551616"), u64::MAX), None);
    for refused in ["", "+", "-1", " 1", "1 ", "x", "++1"] {
        assert_eq!(text::parse_decimal(&chars(refused), 100), None);
    }
    let mut out = String::new();
    text::push_decimal(&mut out, 0);
    text::push_decimal(&mut out, u64::MAX);
    text::push_padded(&mut out, 42, 5);
    text::push_padded(&mut out, 123456, 5);
    assert_eq!(out, "01844674407370955161500042123456");
}
