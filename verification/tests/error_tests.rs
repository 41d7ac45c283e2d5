use curl_rs::error::{ClientError, ConnectError, ParseError};

#[test]
fn describe_echoes_the_input() {
    assert_eq!(
        ClientError::Parse(ParseError::UnsupportedScheme).describe("ftp://x/y"),
        "unsupported scheme: ftp://x/y"
    );
    assert_eq!(
        ClientError::Parse(ParseError::MalformedURL).describe("http://example.com"),
        "malformed URL: http://example.com"
    );
    assert_eq!(ClientError::Parse(ParseError::EmptyHost).describe("http:///"), "empty host: http:///");
    assert_eq!(
        ClientError::Parse(ParseError::InvalidPort).describe("http://h:x/"),
        "invalid port: http://h:x/"
    );
    assert_eq!(ClientError::Io.describe(""), "connection failed: ");
    assert_eq!(ClientError::Cancelled.describe("\u{fc}"), "cancelled: \u{fc}");
}

#[test]
fn every_error_has_its_own_words() {
    let errors = [
        ClientError::Parse(ParseError::UnsupportedScheme),
        ClientError::Parse(ParseError::MalformedURL),
        ClientError::Parse(ParseError::EmptyHost),
        ClientError::Parse(ParseError::InvalidPort),
        ClientError::Parse(ParseError::MalformedResponse),
        ClientError::Connect(ConnectError::DnsFailure),
        ClientError::Connect(ConnectError::ConnectionRefused),
        ClientError::Connect(ConnectError::Timeout),
        ClientError::Io,
        ClientError::Cancelled,
    ];
    let words: Vec<&str> = errors.iter().map(|e| e.reason()).collect();
    assert_eq!(
        words,
        vec![
            "unsupported scheme",
            "malformed URL",
            "empty host",
            "invalid port",
            "malformed response",
            "host not found",
            "connection refused",
            "connection timed out",
            "connection failed",
            "cancelled",
        ]
    );
}
