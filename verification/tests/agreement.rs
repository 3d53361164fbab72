use file_downloader::http::{HttpClient, HttpError};
use file_downloader::text::{parse_unsigned_range, to_chars};
use std::collections::HashMap;

fn texts(alphabet: &[char], max_len: usize) -> Vec<String> {
    let mut all = vec![String::new()];
    let mut last = vec![String::new()];
    for _ in 0..max_len {
        let mut next = Vec::new();
        for text in &last {
            for c in alphabet {
                let mut longer = text.clone();
                longer.push(*c);
                next.push(longer);
            }
        }
        all.extend(next.iter().cloned());
        last = next;
    }
    all
}

enum Expected {
    Invalid,
    Failed(u16),
    Response(u16, HashMap<String, String>),
}

fn by_the_standard_library(head: &str) -> Expected {
    let status_line = match head.lines().next() {
        Some(line) => line,
        None => return Expected::Invalid,
    };
    let status_code: u16 = match status_line.split_whitespace().nth(1).and_then(|s| s.parse().ok()) {
        Some(code) => code,
        None => return Expected::Invalid,
    };
    if status_code >= 400 {
        return Expected::Failed(status_code);
    }
    let headers = head
        .lines()
        .skip(1)
        .filter_map(|line| {
            let mut parts = line.splitn(2, ':');
            match (parts.next(), parts.next()) {
                (Some(name), Some(value)) => Some((name.trim().to_string(), value.trim().to_string())),
                _ => None,
            }
        })
        .collect();
    Expected::Response(status_code, headers)
}

fn agree_on(head: &str) {
    let answer = HttpClient::interpret_head(head, vec![1, 2, 3]);
    match (by_the_standard_library(head), answer) {
        (Expected::Invalid, Err(HttpError::InvalidResponse)) => {}
        (Expected::Failed(code), Err(HttpError::RequestFailed(got))) => {
            assert_eq!(got, code, "head {:?}", head)
        }
        (Expected::Response(code, headers), Ok(response)) => {
            assert_eq!(response.status_code, code, "head {:?}", head);
            assert_eq!(response.header_count(), headers.len(), "head {:?}", head);
            for (name, value) in &headers {
                assert_eq!(response.header(name), Some(value), "head {:?}", head);
            }
            assert_eq!(response.body, vec![1, 2, 3]);
        }
        _ => panic!("disagreement on head {:?}", head),
    }
}

#[test]
fn header_lines_are_read_as_the_standard_library_reads_them() {
    for tail in texts(&['a', 'b', ':', ' ', '\r', '\n', '\u{a0}'], 5) {
        agree_on(&format!("HTTP/1.1 200 OK\r\n{}", tail));
        agree_on(&format!("HTTP/1.1 200 OK\r\nb: 1\r\n{}\r\n\r\n", tail));
    }
}

#[test]
fn status_lines_are_read_as_the_standard_library_reads_them() {
    for line in texts(&['H', ' ', '2', '4', '0', '\r', '\n', '+', '\u{2003}'], 5) {
        agree_on(&line);
        agree_on(&format!("{}\r\nname: value\r\n\r\n", line));
        agree_on(&format!("HTTP/1.1 {}\r\n\r\n", line));
    }
}

#[test]
fn numbers_are_read_as_the_standard_library_reads_them() {
    let mut samples = texts(&['+', '-', '0', '1', '6', '9', ' ', 'a'], 5);
    for value in [65534u64, 65535, 65536, 65537, 99999, 100000, 4294967295, 4294967296] {
        samples.push(value.to_string());
        samples.push(format!("+{}", value));
        samples.push(format!("000{}", value));
    }
    for value in [u64::MAX as u128 - 1, u64::MAX as u128, u64::MAX as u128 + 1, u128::MAX] {
        samples.push(value.to_string());
    }
    for text in samples {
        let chars = to_chars(&text);
        assert_eq!(
            parse_unsigned_range(&chars, 0, chars.len(), 65535),
            text.parse::<u16>().ok().map(|n| n as usize),
            "text {:?}",
            text
        );
        assert_eq!(
            parse_unsigned_range(&chars, 0, chars.len(), usize::MAX),
            text.parse::<usize>().ok(),
            "text {:?}",
            text
        );
    }
}

#[test]
fn written_headers_are_read_back() {
    let client = HttpClient::new("example.com".to_string(), 80);
    let headers = vec![("Content-Length", "12"), ("X-Tag", "one"), ("Empty", ""), ("X-Tag", "two words")];
    let request = client.build_request("HTTP/1.1", "200", &Some(headers));
    let mut raw = request.into_bytes();
    raw.extend_from_slice(b"body\r\n\r\nmore");
    let response = match client.parse_response(raw) {
        Ok(response) => response,
        Err(error) => panic!("unexpected error: {:?}", error),
    };
    assert_eq!(response.status_code, 200);
    assert_eq!(response.header_count(), 5);
    assert_eq!(response.header("Host").map(String::as_str), Some("example.com:80"));
    assert_eq!(response.header("Connection").map(String::as_str), Some("close"));
    assert_eq!(response.header("Content-Length").map(String::as_str), Some("12"));
    assert_eq!(response.header("X-Tag").map(String::as_str), Some("two words"));
    assert_eq!(response.header("Empty").map(String::as_str), Some(""));
    assert_eq!(response.body, b"body\r\n\r\nmore".to_vec());
}
