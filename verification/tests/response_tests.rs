use curl_rs::ascii::{equals_ignoring_case, to_lower, trim_blanks};
use curl_rs::error::ParseError;
use curl_rs::response::{
    find_header, parse_response, read_framing, read_header_block, read_header_line,
    read_status_line, Framing, Header,
};

fn header(name: &str, value: &str) -> Header {
    Header { name: name.as_bytes().to_vec(), value: value.as_bytes().to_vec() }
}

#[test]
fn content_length_keeps_only_the_declared_bytes() {
    let raw = b"HTTP/1.1 200 OK\r\nContent-Length: 5\r\n\r\nhelloEXTRA BYTES";
    let response = parse_response(raw).unwrap();
    assert_eq!(response.status_code, 200);
    assert_eq!(response.status_text, b"OK".to_vec());
    assert_eq!(response.headers, vec![header("Content-Length", "5")]);
    assert_eq!(response.body, b"hello".to_vec());
}

#[test]
fn without_content_length_the_body_is_all_that_follows() {
    let raw = b"HTTP/1.1 404 Not Found\r\nServer: x\r\n\r\nno such page\r\n";
    let response = parse_response(raw).unwrap();
    assert_eq!(response.status_code, 404);
    assert_eq!(response.status_text, b"Not Found".to_vec());
    assert_eq!(response.headers, vec![header("Server", "x")]);
    assert_eq!(response.body, b"no such page\r\n".to_vec());
}

#[test]
fn headers_keep_their_order_and_duplicates() {
    let raw = b"HTTP/1.1 200 OK\r\nSet-Cookie: a=1\r\nX-B: 2\r\nSet-Cookie: c=3\r\n\r\n";
    let response = parse_response(raw).unwrap();
    assert_eq!(
        response.headers,
        vec![header("Set-Cookie", "a=1"), header("X-B", "2"), header("Set-Cookie", "c=3")]
    );
    assert_eq!(response.body, Vec::<u8>::new());
}

#[test]
fn a_response_without_headers() {
    let response = parse_response(b"HTTP/1.0 204 No Content\r\n\r\n").unwrap();
    assert_eq!(response.status_code, 204);
    assert_eq!(response.status_text, b"No Content".to_vec());
    assert!(response.headers.is_empty());
    assert!(response.body.is_empty());
}

#[test]
fn content_length_zero_drops_everything() {
    let response = parse_response(b"HTTP/1.1 200 OK\r\nContent-Length: 0\r\n\r\nabc").unwrap();
    assert!(response.body.is_empty());
}

#[test]
fn content_length_is_found_whatever_its_case() {
    let response = parse_response(b"HTTP/1.1 200 OK\r\ncontent-length:3\r\n\r\nabcdef").unwrap();
    assert_eq!(response.body, b"abc".to_vec());
    let response = parse_response(b"HTTP/1.1 200 OK\r\nCONTENT-LENGTH: \t2 \r\n\r\nabcdef").unwrap();
    assert_eq!(response.body, b"ab".to_vec());
}

#[test]
fn the_first_content_length_counts() {
    let raw = b"HTTP/1.1 200 OK\r\nContent-Length: 1\r\nContent-Length: 4\r\n\r\nabcdef";
    assert_eq!(parse_response(raw).unwrap().body, b"a".to_vec());
}

#[test]
fn a_body_may_hold_any_bytes() {
    let mut raw = b"HTTP/1.1 200 OK\r\nContent-Length: 4\r\n\r\n".to_vec();
    raw.extend_from_slice(&[0, 255, 13, 10, 7]);
    assert_eq!(parse_response(&raw).unwrap().body, vec![0, 255, 13, 10]);
}

#[test]
fn a_bad_status_line_is_malformed() {
    for raw in [
        &b""[..],
        b"\r\n\r\n",
        b"HTTP/1.1\r\n\r\n",
        b"HTTP/1.1 200\r\n\r\n",
        b"HTTP/1.1 abc OK\r\n\r\n",
        b"HTTP/1.1 99999 OK\r\n\r\n",
        b"HTTP/1.1  200 OK\r\n\r\n",
        b" 200 OK\r\n\r\n",
        b"HTTP/1.1 200 OK",
        b"HTTP/1.1 200 OK\n\n",
    ] {
        assert_eq!(parse_response(raw), Err(ParseError::MalformedResponse));
    }
}

#[test]
fn a_header_without_a_colon_is_malformed() {
    let raw = b"HTTP/1.1 200 OK\r\nContent-Length 5\r\n\r\nhello";
    assert_eq!(parse_response(raw), Err(ParseError::MalformedResponse));
    let raw = b"HTTP/1.1 200 OK\r\nA: 1\r\nnonsense\r\n\r\n";
    assert_eq!(parse_response(raw), Err(ParseError::MalformedResponse));
}

#[test]
fn headers_without_a_blank_line_are_malformed() {
    assert_eq!(parse_response(b"HTTP/1.1 200 OK\r\n"), Err(ParseError::MalformedResponse));
    assert_eq!(parse_response(b"HTTP/1.1 200 OK\r\nA: 1\r\n"), Err(ParseError::MalformedResponse));
    assert_eq!(parse_response(b"HTTP/1.1 200 OK\r\nA: 1"), Err(ParseError::MalformedResponse));
}

#[test]
fn a_bad_or_unmet_content_length_is_malformed() {
    for raw in [
        &b"HTTP/1.1 200 OK\r\nContent-Length: five\r\n\r\nhello"[..],
        b"HTTP/1.1 200 OK\r\nContent-Length: \r\n\r\nhello",
        b"HTTP/1.1 200 OK\r\nContent-Length: -1\r\n\r\nhello",
        b"HTTP/1.1 200 OK\r\nContent-Length: 99999999999999999999999999\r\n\r\nhello",
        b"HTTP/1.1 200 OK\r\nContent-Length: 6\r\n\r\nhello",
    ] {
        assert_eq!(parse_response(raw), Err(ParseError::MalformedResponse));
    }
}

#[test]
fn status_line_parts() {
    assert_eq!(read_status_line(b"HTTP/1.1 200 OK"), Some((200, b"OK".to_vec())));
    assert_eq!(read_status_line(b"HTTP/1.1 200 "), Some((200, Vec::new())));
    assert_eq!(
        read_status_line(b"HTTP/1.1 500 Internal Server Error"),
        Some((500, b"Internal Server Error".to_vec()))
    );
    assert_eq!(read_status_line(b"x 65535 y"), Some((65535, b"y".to_vec())));
    assert_eq!(read_status_line(b"x 65536 y"), None);
    assert_eq!(read_status_line(b"HTTP/1.1 200"), None);
    assert_eq!(read_status_line(b"HTTP/1.1"), None);
    assert_eq!(read_status_line(b""), None);
}

#[test]
fn header_line_parts() {
    assert_eq!(read_header_line(b"Host: example.com"), Some(header("Host", "example.com")));
    assert_eq!(read_header_line(b"Host:example.com"), Some(header("Host", "example.com")));
    assert_eq!(read_header_line(b"A: \t b c \t "), Some(header("A", "b c")));
    assert_eq!(read_header_line(b"Date: 10:20:30"), Some(header("Date", "10:20:30")));
    assert_eq!(read_header_line(b"Empty:"), Some(header("Empty", "")));
    assert_eq!(read_header_line(b"Blank:   "), Some(header("Blank", "")));
    assert_eq!(read_header_line(b": v"), Some(header("", "v")));
    assert_eq!(read_header_line(b"no separator"), None);
    assert_eq!(read_header_line(b""), None);
}

#[test]
fn header_block_gives_the_start_of_the_body() {
    let raw = b"....A: 1\r\nB: 2\r\n\r\nbody";
    assert_eq!(
        read_header_block(raw, 4),
        Some((vec![header("A", "1"), header("B", "2")], 18))
    );
    assert_eq!(read_header_block(b"\r\n", 0), Some((vec![], 2)));
    assert_eq!(read_header_block(b"A: 1\r\n", 0), None);
    assert_eq!(read_header_block(b"", 0), None);
    assert_eq!(read_header_block(b"abc", 3), None);
}

#[test]
fn framing_follows_the_headers() {
    assert_eq!(read_framing(&vec![]), Some(Framing::UntilClose));
    assert_eq!(read_framing(&vec![header("Server", "x")]), Some(Framing::UntilClose));
    assert_eq!(
        read_framing(&vec![header("Server", "x"), header("content-LENGTH", "12")]),
        Some(Framing::ContentLength(12))
    );
    assert_eq!(read_framing(&vec![header("Content-Length", "1 2")]), None);
    assert_eq!(read_framing(&vec![header("Content-Length", "")]), None);
}

#[test]
fn find_header_returns_the_first_match() {
    let headers = vec![header("A", "1"), header("b", "2"), header("B", "3")];
    assert_eq!(find_header(&headers, "B"), Some(&b"2".to_vec()));
    assert_eq!(find_header(&headers, "a"), Some(&b"1".to_vec()));
    assert_eq!(find_header(&headers, "C"), None);
    assert_eq!(find_header(&vec![], "A"), None);
}

#[test]
fn ascii_helpers() {
    assert_eq!(to_lower(b'A'), b'a');
    assert_eq!(to_lower(b'Z'), b'z');
    assert_eq!(to_lower(b'a'), b'a');
    assert_eq!(to_lower(b'@'), b'@');
    assert_eq!(to_lower(b'['), b'[');
    assert_eq!(to_lower(0xc4), 0xc4);
    assert!(equals_ignoring_case(b"Content-Length", b"content-length"));
    assert!(equals_ignoring_case(b"", b""));
    assert!(!equals_ignoring_case(b"Content-Length", b"Content-Lengt"));
    assert!(!equals_ignoring_case(b"a-b", b"a_b"));
    assert!(!equals_ignoring_case(b"@", b"`"));
    assert_eq!(trim_blanks(b"  a b\t"), b"a b");
    assert_eq!(trim_blanks(b" \t "), b"");
    assert_eq!(trim_blanks(b""), b"");
    assert_eq!(trim_blanks(b"x"), b"x");
    assert_eq!(trim_blanks(b"\r x\n"), b"\r x\n");
}
