use curl_rs::client::{outcome, prepare_request};
use curl_rs::error::{ClientError, ConnectError, ParseError};
use curl_rs::exchange::{Event, Exchange};
use curl_rs::response::ResponseMessage;
use curl_rs::url::Scheme;

#[test]
fn prepare_defaults_the_method_to_get() {
    let (address, request) =
        prepare_request("http://example.com:8080/a/b", None, None, vec![]).unwrap();
    assert_eq!(address.scheme, Scheme::Http);
    assert_eq!(address.hostname, "example.com");
    assert_eq!(address.port, 8080);
    assert_eq!(address.pathname, "/a/b");
    assert_eq!(
        String::from_utf8(request).unwrap(),
        "GET /a/b HTTP/1.1\r\nHost: example.com\r\nUser-Agent: Curl-rs 1.0\r\nAccept: */*\r\nConnection: close\r\n\r\n"
    );
}

#[test]
fn prepare_takes_the_method_body_and_headers() {
    let body = String::from("{\"a\":1}");
    let (_, request) = prepare_request(
        "http://example.com/items",
        Some("PUT"),
        Some(&body),
        vec!["Content-Type: application/json\r\n"],
    )
    .unwrap();
    assert_eq!(
        String::from_utf8(request).unwrap(),
        "PUT /items HTTP/1.1\r\nHost: example.com\r\nUser-Agent: Curl-rs 1.0\r\nAccept: */*\r\nConnection: close\r\nContent-Type: application/json\r\nContent-Length: 7\r\n\r\n{\"a\":1}\r\n"
    );
}

#[test]
fn prepare_gives_the_error_of_the_url() {
    for (url, cause) in [
        ("ftp://x/y", ParseError::UnsupportedScheme),
        ("http://example.com", ParseError::MalformedURL),
        ("example.com/", ParseError::MalformedURL),
        ("http:///x", ParseError::EmptyHost),
        ("http://h:99999/x", ParseError::InvalidPort),
    ] {
        assert_eq!(
            prepare_request(url, Some("GET"), None, vec![]),
            Err(ClientError::Parse(cause))
        );
    }
}

#[test]
fn outcome_is_known_once_the_exchange_ended() {
    assert_eq!(outcome(Exchange::new()), None);
    assert_eq!(outcome(Exchange::Connected), None);
    assert_eq!(outcome(Exchange::Sent), None);
    let (failed, _) = Exchange::new().step(Event::ConnectFailed(ConnectError::DnsFailure));
    assert_eq!(outcome(failed), Some(Err(ClientError::Connect(ConnectError::DnsFailure))));
    let mut exchange = Exchange::new();
    for event in [
        Event::Connected,
        Event::Sent,
        Event::Line(b"HTTP/1.1 200 OK\r\n".to_vec()),
        Event::Line(b"\r\n".to_vec()),
    ] {
        exchange = exchange.step(event).0;
    }
    assert_eq!(outcome(exchange), None);
    let response = || ResponseMessage {
        status_code: 200,
        status_text: b"OK".to_vec(),
        headers: vec![],
        body: b"hi".to_vec(),
    };
    assert_eq!(outcome(Exchange::Complete(response())), Some(Ok(response())));
}
