use file_downloader::config::Config;
use file_downloader::digest::{sha256_hex, to_lower_hex};
use file_downloader::downloader::DownloadError;
use file_downloader::http::{HttpError, IoFailure, IoKind};
use file_downloader::text::{
    char_is_whitespace, find_char, parse_unsigned_range, push_decimal, skip_spaces, skip_word,
    substring, to_chars, trim_range,
};

fn args(list: &[&str]) -> Vec<String> {
    list.iter().map(|s| s.to_string()).collect()
}

#[test]
fn config_defaults_apply_without_arguments() {
    for list in [&[][..], &["prog"][..]] {
        let config = Config::from(args(list));
        assert_eq!(config.server_url, "http://localhost:8080");
        assert_eq!(config.output_filename, "output.bin");
    }
}

#[test]
fn config_takes_url_from_first_argument() {
    let config = Config::from(args(&["prog", "http://example.com:81/x"]));
    assert_eq!(config.server_url, "http://example.com:81/x");
    assert_eq!(config.output_filename, "output.bin");
}

#[test]
fn config_takes_filename_from_second_argument() {
    let config = Config::from(args(&["prog", "http://example.com:81/x", "out.dat", "ignored"]));
    assert_eq!(config.server_url, "http://example.com:81/x");
    assert_eq!(config.output_filename, "out.dat");
}

#[test]
fn sha256_hex_of_known_inputs() {
    assert_eq!(
        sha256_hex(b""),
        "e3b0c44298fc1c149afbf4c8996fb92427ae41e4649b934ca495991b7852b855"
    );
    assert_eq!(
        sha256_hex(b"abc"),
        "ba7816bf8f01cfea414140de5dae2223b00361a396177a9cb410ff61f20015ad"
    );
    assert_eq!(sha256_hex(&[0u8; 1000]).len(), 64);
}

#[test]
fn lower_hex_writes_two_digits_per_byte() {
    assert_eq!(to_lower_hex(&[]), "");
    assert_eq!(to_lower_hex(&[0x00, 0x0f, 0x10, 0x9a, 0xbc, 0xde, 0xff]), "000f109abcdeff");
}

#[test]
fn http_error_messages() {
    let failure = |message: &str| IoFailure { kind: IoKind::Other, message: message.to_string() };
    assert_eq!(
        HttpError::ConnectionFailed(failure("refused")).message(),
        "connection failed, IO error: refused"
    );
    assert_eq!(HttpError::Timeout.message(), "connection timed out");
    assert_eq!(HttpError::InvalidResponse.message(), "invalid HTTP response");
    assert_eq!(HttpError::RequestFailed(404).message(), "HTTP request failed with status 404");
    assert_eq!(HttpError::IoError(failure("broken pipe")).message(), "IO error: broken pipe");
}

#[test]
fn download_error_messages() {
    let failure = IoFailure { kind: IoKind::Other, message: "disk full".to_string() };
    assert_eq!(
        DownloadError::Http(HttpError::RequestFailed(500)).message(),
        "HTTP error: HTTP request failed with status 500"
    );
    assert_eq!(
        DownloadError::MissingLength.message(),
        "Server did not convey total length information"
    );
    assert_eq!(
        DownloadError::InvalidResponse("Non-ok response status: 301".to_string()).message(),
        "Invalid response: Non-ok response status: 301"
    );
    assert_eq!(DownloadError::IoError(failure).message(), "IO error: disk full");
}

#[test]
fn io_failures_convert_by_kind() {
    let failure = |kind| IoFailure { kind, message: "m".to_string() };
    assert!(matches!(HttpError::from(failure(IoKind::TimedOut)), HttpError::Timeout));
    assert!(matches!(HttpError::from(failure(IoKind::WouldBlock)), HttpError::Timeout));
    assert!(matches!(
        HttpError::from(failure(IoKind::ConnectionRefused)),
        HttpError::ConnectionFailed(IoFailure { kind: IoKind::ConnectionRefused, .. })
    ));
    assert!(matches!(
        HttpError::from(failure(IoKind::ConnectionAborted)),
        HttpError::ConnectionFailed(IoFailure { kind: IoKind::ConnectionAborted, .. })
    ));
    assert!(matches!(
        HttpError::from(failure(IoKind::ConnectionReset)),
        HttpError::ConnectionFailed(IoFailure { kind: IoKind::ConnectionReset, .. })
    ));
    assert!(matches!(HttpError::from(failure(IoKind::Other)), HttpError::IoError(_)));
}

#[test]
fn lower_errors_convert_into_download_errors() {
    assert!(matches!(
        DownloadError::from(HttpError::InvalidResponse),
        DownloadError::Http(HttpError::InvalidResponse)
    ));
    let failure = IoFailure { kind: IoKind::TimedOut, message: "m".to_string() };
    assert!(matches!(
        DownloadError::from(failure),
        DownloadError::IoError(IoFailure { kind: IoKind::TimedOut, .. })
    ));
}

#[test]
fn whitespace_is_the_unicode_property() {
    for c in ['\t', '\n', '\u{b}', '\u{c}', '\r', ' ', '\u{85}', '\u{a0}', '\u{1680}', '\u{2000}',
        '\u{200a}', '\u{2028}', '\u{2029}', '\u{202f}', '\u{205f}', '\u{3000}']
    {
        assert!(char_is_whitespace(c), "{:?}", c);
    }
    for c in ['a', '0', '\u{8}', '\u{e}', '\u{1f}', '\u{200b}', '\u{feff}', '\u{180e}', '\u{0}'] {
        assert!(!char_is_whitespace(c), "{:?}", c);
    }
}

#[test]
fn whitespace_agrees_with_std_on_every_char() {
    for code in 0..=0x10ffffu32 {
        if let Some(c) = char::from_u32(code) {
            assert_eq!(char_is_whitespace(c), c.is_whitespace(), "U+{:04X}", code);
        }
    }
}

#[test]
fn scanning_helpers_find_their_marks() {
    let chars = to_chars("  ab cd:e  ");
    assert_eq!(chars.len(), 11);
    assert_eq!(find_char(&chars, 0, 11, ':'), 7);
    assert_eq!(find_char(&chars, 8, 11, ':'), 11);
    assert_eq!(find_char(&chars, 3, 3, 'b'), 3);
    assert_eq!(skip_spaces(&chars, 0, 11), 2);
    assert_eq!(skip_spaces(&chars, 2, 11), 2);
    assert_eq!(skip_word(&chars, 2, 11), 4);
    assert_eq!(skip_word(&chars, 5, 11), 9);
    assert_eq!(trim_range(&chars, 0, 11), (2, 9));
    assert_eq!(trim_range(&chars, 9, 11), (11, 11));
    assert_eq!(trim_range(&chars, 4, 5), (5, 5));
    assert_eq!(substring("h\u{e9}llo", 1, 3), "\u{e9}l");
}

fn number(text: &str, max: usize) -> Option<usize> {
    let chars = to_chars(text);
    parse_unsigned_range(&chars, 0, chars.len(), max)
}

#[test]
fn unsigned_numbers_are_read_strictly() {
    assert_eq!(number("0", 10), Some(0));
    assert_eq!(number("10", 10), Some(10));
    assert_eq!(number("11", 10), None);
    assert_eq!(number("+7", 10), Some(7));
    assert_eq!(number("007", 10), Some(7));
    assert_eq!(number("", 10), None);
    assert_eq!(number("+", 10), None);
    assert_eq!(number("++1", 10), None);
    assert_eq!(number("-1", 10), None);
    assert_eq!(number(" 1", 10), None);
    assert_eq!(number("1 ", 10), None);
    assert_eq!(number("1a", 10), None);
    assert_eq!(number("\u{661}", 10), None);
    assert_eq!(number("18446744073709551615", usize::MAX), "18446744073709551615".parse().ok());
    assert_eq!(number("18446744073709551616", usize::MAX), "18446744073709551616".parse().ok());
    assert_eq!(number("65535", 65535), Some(65535));
    assert_eq!(number("65536", 65535), None);
    assert_eq!(number("5", 0), None);
    assert_eq!(number("0", 0), Some(0));
}

#[test]
fn decimal_text_has_no_leading_zeros() {
    for (value, expected) in [(0usize, "0"), (7, "7"), (10, "10"), (65535, "65535"), (1000000, "1000000")] {
        let mut text = "n=".to_string();
        push_decimal(&mut text, value);
        assert_eq!(text, format!("n={}", expected));
    }
    let mut text = String::new();
    push_decimal(&mut text, usize::MAX);
    assert_eq!(text, usize::MAX.to_string());
}
