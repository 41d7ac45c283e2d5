use curl_rs::error::ParseError;
use curl_rs::url::{parse_url, Scheme, DEFAULT_PORT, URL};

#[test]
fn parse_defaults_the_port_to_80() {
    let url = parse_url("http://example.com/foo").unwrap();
    assert_eq!(url.scheme, Scheme::Http);
    assert_eq!(url.hostname, "example.com");
    assert_eq!(url.port, 80);
    assert_eq!(url.pathname, "/foo");
}

#[test]
fn parse_reads_an_explicit_port() {
    let url = parse_url("http://example.com:8080/a/b").unwrap();
    assert_eq!(url.hostname, "example.com");
    assert_eq!(url.port, 8080);
    assert_eq!(url.pathname, "/a/b");
}

#[test]
fn parse_without_a_path_is_malformed() {
    assert_eq!(parse_url("http://example.com"), Err(ParseError::MalformedURL));
    assert_eq!(parse_url("http://example.com:8080"), Err(ParseError::MalformedURL));
}

#[test]
fn parse_rejects_an_unsupported_scheme() {
    assert_eq!(parse_url("ftp://x/y"), Err(ParseError::UnsupportedScheme));
    assert_eq!(parse_url("https://x/y"), Err(ParseError::UnsupportedScheme));
    assert_eq!(parse_url("://x/y"), Err(ParseError::UnsupportedScheme));
}

#[test]
fn parse_matches_the_scheme_by_case() {
    assert_eq!(parse_url("HTTP://x/y"), Err(ParseError::UnsupportedScheme));
    assert_eq!(parse_url("Http://x/y"), Err(ParseError::UnsupportedScheme));
}

#[test]
fn parse_without_a_scheme_separator_is_malformed() {
    assert_eq!(parse_url(""), Err(ParseError::MalformedURL));
    assert_eq!(parse_url("example.com/foo"), Err(ParseError::MalformedURL));
    assert_eq!(parse_url("http:/example.com/foo"), Err(ParseError::MalformedURL));
}

#[test]
fn parse_rejects_an_empty_host() {
    assert_eq!(parse_url("http:///foo"), Err(ParseError::EmptyHost));
    assert_eq!(parse_url("http://:80/foo"), Err(ParseError::EmptyHost));
}

#[test]
fn parse_rejects_a_port_that_is_no_number() {
    assert_eq!(parse_url("http://host:abc/x"), Err(ParseError::InvalidPort));
    assert_eq!(parse_url("http://host:/x"), Err(ParseError::InvalidPort));
    assert_eq!(parse_url("http://host:+80/x"), Err(ParseError::InvalidPort));
    assert_eq!(parse_url("http://host:8 0/x"), Err(ParseError::InvalidPort));
}

#[test]
fn parse_rejects_a_port_out_of_range() {
    assert_eq!(parse_url("http://host:65536/x"), Err(ParseError::InvalidPort));
    assert_eq!(parse_url("http://host:99999999999999999999999/x"), Err(ParseError::InvalidPort));
    assert_eq!(parse_url("http://host:65535/x").unwrap().port, 65535);
    assert_eq!(parse_url("http://host:0/x").unwrap().port, 0);
}

#[test]
fn parse_checks_the_port_before_the_host() {
    assert_eq!(parse_url("http://:x/"), Err(ParseError::InvalidPort));
}

#[test]
fn parse_accepts_leading_zeros_in_the_port() {
    assert_eq!(parse_url("http://host:0080/").unwrap().port, 80);
}

#[test]
fn parse_cuts_the_authority_at_its_last_colon() {
    let url = parse_url("http://a:b:81/x").unwrap();
    assert_eq!(url.hostname, "a:b");
    assert_eq!(url.port, 81);
}

#[test]
fn parse_keeps_the_whole_path() {
    let url = parse_url("http://example.com/a/b?x=1://y:2#frag").unwrap();
    assert_eq!(url.hostname, "example.com");
    assert_eq!(url.port, 80);
    assert_eq!(url.pathname, "/a/b?x=1://y:2#frag");
    assert_eq!(parse_url("http://example.com/").unwrap().pathname, "/");
}

#[test]
fn parse_keeps_characters_outside_ascii() {
    let url = parse_url("http://b\u{fc}cher.example:81/\u{fc}ber/\u{1f600}").unwrap();
    assert_eq!(url.hostname, "b\u{fc}cher.example");
    assert_eq!(url.port, 81);
    assert_eq!(url.pathname, "/\u{fc}ber/\u{1f600}");
}

#[test]
fn parse_round_trips_host_port_and_path() {
    for host in ["example.com", "a", "10.0.0.1", "x-y.z"] {
        for port in [None, Some(0u16), Some(7), Some(80), Some(8080), Some(65535)] {
            for path in ["/", "/foo", "/a/b/c?d=e"] {
                let text = match port {
                    Some(p) => format!("http://{}:{}{}", host, p, path),
                    None => format!("http://{}{}", host, path),
                };
                let url = parse_url(&text).unwrap();
                assert_eq!(url.scheme, Scheme::Http);
                assert_eq!(url.hostname, host);
                assert_eq!(url.port, port.unwrap_or(DEFAULT_PORT));
                assert_eq!(url.pathname, path);
            }
        }
    }
}

#[test]
fn new_keeps_its_parts() {
    let url = URL::new(Scheme::Http, "example.com", 8080, "/index.html");
    assert_eq!(url.scheme, Scheme::Http);
    assert_eq!(url.hostname, "example.com");
    assert_eq!(url.port, 8080);
    assert_eq!(url.pathname, "/index.html");
    assert_eq!(url, parse_url("http://example.com:8080/index.html").unwrap());
}

#[test]
fn scheme_tables() {
    assert_eq!(Scheme::from_token(b"http"), Some(Scheme::Http));
    assert_eq!(Scheme::from_token(b"HTTP"), None);
    assert_eq!(Scheme::from_token(b"https"), None);
    assert_eq!(Scheme::from_token(b"htt"), None);
    assert_eq!(Scheme::from_token(b""), None);
    assert_eq!(Scheme::Http.protocol(), "HTTP/1.1");
    assert_eq!(DEFAULT_PORT, 80);
}

#[test]
fn socket_addr_joins_host_and_port() {
    assert_eq!(parse_url("http://example.com/foo").unwrap().socket_addr(), "example.com:80");
    assert_eq!(parse_url("http://example.com:8080/").unwrap().socket_addr(), "example.com:8080");
    assert_eq!(parse_url("http://h:0/").unwrap().socket_addr(), "h:0");
    assert_eq!(parse_url("http://h:65535/").unwrap().socket_addr(), "h:65535");
    assert_eq!(
        URL::new(Scheme::Http, "b\u{fc}cher.example", 7, "/").socket_addr(),
        "b\u{fc}cher.example:7"
    );
}
