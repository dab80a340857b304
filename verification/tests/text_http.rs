use tickets::http::{
    extract_bearer, find_subseq, hex_digit, http_response, parse_query, url_decode, url_encode,
};
use tickets::text::{chars_of, find_chars, nth_word_of, parse_u64, push_decimal, trim_chars};

fn chars(s: &str) -> Vec<char> {
    s.chars().collect()
}

fn text(v: &[char]) -> String {
    v.iter().collect()
}

#[test]
fn parse_u64_reads_plain_and_plus_prefixed_digits() {
    assert_eq!(parse_u64(&chars("42")), Some(42));
    assert_eq!(parse_u64(&chars("+7")), Some(7));
    assert_eq!(parse_u64(&chars("007")), Some(7));
    assert_eq!(parse_u64(&chars("18446744073709551615")), Some(u64::MAX));
}

#[test]
fn parse_u64_refuses_malformed_and_overflowing_input() {
    assert_eq!(parse_u64(&chars("")), None);
    assert_eq!(parse_u64(&chars("+")), None);
    assert_eq!(parse_u64(&chars("-1")), None);
    assert_eq!(parse_u64(&chars("1a")), None);
    assert_eq!(parse_u64(&chars(" 1")), None);
    assert_eq!(parse_u64(&chars("18446744073709551616")), None);
    assert_eq!(parse_u64(&chars("١")), None);
}

#[test]
fn push_decimal_renders_numbers() {
    let mut s = String::from("n=");
    push_decimal(&mut s, 0);
    push_decimal(&mut s, 1234567890);
    assert_eq!(s, "n=01234567890");
}

#[test]
fn words_split_on_unicode_whitespace() {
    let line = chars("  GET\u{a0}/v1/tickets \t HTTP/1.1 ");
    assert_eq!(text(&nth_word_of(&line, 0)), "GET");
    assert_eq!(text(&nth_word_of(&line, 1)), "/v1/tickets");
    assert_eq!(text(&nth_word_of(&line, 2)), "HTTP/1.1");
    assert_eq!(text(&nth_word_of(&line, 3)), "");
}

#[test]
fn trim_removes_surrounding_whitespace_only() {
    assert_eq!(text(&trim_chars(&chars("\u{3000} a b \r"))), "a b");
    assert_eq!(text(&trim_chars(&chars(" \t "))), "");
}

#[test]
fn find_locates_the_first_occurrence() {
    assert_eq!(find_chars(&chars("ab\r\n\r\ncd\r\n\r\n"), &chars_of("\r\n\r\n")), Some(2));
    assert_eq!(find_chars(&chars("abc"), &chars_of("x")), None);
    assert_eq!(find_subseq(b"xx\r\n\r\nyy", b"\r\n\r\n"), Some(2));
    assert_eq!(find_subseq(b"abc", b""), None);
    assert_eq!(find_subseq(b"ab", b"abc"), None);
}

#[test]
fn http_response_frames_a_json_body() {
    let out = http_response(200, b"{}".to_vec());
    assert_eq!(
        out,
        b"HTTP/1.1 200 OK\r\nContent-Type: application/json\r\nContent-Length: 2\r\nConnection: close\r\n\r\n{}"
            .to_vec()
    );
    let out = http_response(401, Vec::new());
    assert_eq!(
        out,
        b"HTTP/1.1 401 Unauthorized\r\nContent-Type: application/json\r\nContent-Length: 0\r\nConnection: close\r\n\r\n"
            .to_vec()
    );
    let out = http_response(500, b"x".to_vec());
    assert!(out.starts_with(b"HTTP/1.1 500 Error\r\n"));
}

#[test]
fn hex_digit_reads_both_cases() {
    assert_eq!(hex_digit(b'0'), Some(0));
    assert_eq!(hex_digit(b'9'), Some(9));
    assert_eq!(hex_digit(b'a'), Some(10));
    assert_eq!(hex_digit(b'F'), Some(15));
    assert_eq!(hex_digit(b'g'), None);
    assert_eq!(hex_digit(b'/'), None);
}

#[test]
fn url_decode_handles_escapes_plus_and_stray_percent() {
    assert_eq!(url_decode("a%20b+c"), "a b c");
    assert_eq!(url_decode("x%40y.com"), "x@y.com");
    assert_eq!(url_decode("%zz%4"), "%zz%4");
    assert_eq!(url_decode("50%"), "50%");
    // each decoded byte becomes the character with that code point
    assert_eq!(url_decode("%C3%A9"), "\u{c3}\u{a9}");
    // a raw non-ASCII character is taken byte by byte
    assert_eq!(url_decode("é"), "\u{c3}\u{a9}");
}

#[test]
fn url_encode_keeps_unreserved_and_escapes_the_rest() {
    assert_eq!(url_encode("in-progress"), "in-progress");
    assert_eq!(url_encode("a b&c/~_."), "a%20b%26c%2F~_.");
    assert_eq!(url_encode("é"), "%C3%A9");
}

#[test]
fn url_roundtrip_law_on_ascii_text() {
    for s in ["in-progress", "dev@example.com", "a b&c=d?e", "100%"] {
        assert_eq!(url_decode(&url_encode(s)), s);
    }
}

#[test]
fn parse_query_reads_status_and_assignee() {
    assert_eq!(
        parse_query("status=open&assignee=x%40y.com&other=1"),
        (Some("open".to_string()), Some("x@y.com".to_string()))
    );
    assert_eq!(parse_query(""), (None, None));
    assert_eq!(parse_query("status"), (None, None));
    assert_eq!(
        parse_query("status=open&status=done"),
        (Some("done".to_string()), None)
    );
    assert_eq!(parse_query("assignee=&"), (None, Some(String::new())));
}

#[test]
fn extract_bearer_finds_the_token_case_insensitively() {
    let req = chars("GET / HTTP/1.1\r\nHost: h\r\nAUTHORIZATION:  Bearer SeCrEt \r\n\r\n");
    assert_eq!(extract_bearer(&req), Some("SeCrEt".to_string()));
    let req = chars("GET / HTTP/1.1\r\nAuthorization: Basic abc\r\n\r\n");
    assert_eq!(extract_bearer(&req), None);
    let req = chars("GET / HTTP/1.1\r\nAuthorization: Basic abc\r\nauthorization: bearer t2\r\n");
    assert_eq!(extract_bearer(&req), Some("t2".to_string()));
    let req = chars("GET / HTTP/1.1\r\n\r\n");
    assert_eq!(extract_bearer(&req), None);
}
