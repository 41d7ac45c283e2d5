//! The ways in which a request can fail.

use vstd::prelude::*;
use vstd::string::*;

verus! {

/// Why a URL or a response could not be parsed.
#[derive(Clone, Copy, Debug, PartialEq, Eq, Structural)]
pub enum ParseError {
    /// The scheme before `://` is not a supported one.
    UnsupportedScheme,
    /// The URL lacks `://`, or has no `/` after the authority.
    MalformedURL,
    /// The authority names no host.
    EmptyHost,
    /// The port is not a decimal number that fits sixteen bits.
    InvalidPort,
    /// The response bytes do not follow the expected grammar.
    MalformedResponse,
}

/// Why no connection could be opened.
#[derive(Clone, Copy, Debug, PartialEq, Eq, Structural)]
pub enum ConnectError {
    /// The host name did not resolve.
    DnsFailure,
    /// The peer refused the connection.
    ConnectionRefused,
    /// The peer did not answer in time.
    Timeout,
}

/// Why a request attempt ended without a response.
#[derive(Clone, Copy, Debug, PartialEq, Eq, Structural)]
pub enum ClientError {
    /// The URL or the response was not understood.
    Parse(ParseError),
    /// The connection could not be opened.
    Connect(ConnectError),
    /// The socket failed in the middle of the exchange.
    Io,
    /// The caller gave the request up.
    Cancelled,
}

/// The words that name an error.
pub open spec fn reason_text(error: ClientError) -> Seq<char> {
    match error {
        ClientError::Parse(ParseError::UnsupportedScheme) => "unsupported scheme"@,
        ClientError::Parse(ParseError::MalformedURL) => "malformed URL"@,
        ClientError::Parse(ParseError::EmptyHost) => "empty host"@,
        ClientError::Parse(ParseError::InvalidPort) => "invalid port"@,
        ClientError::Parse(ParseError::MalformedResponse) => "malformed response"@,
        ClientError::Connect(ConnectError::DnsFailure) => "host not found"@,
        ClientError::Connect(ConnectError::ConnectionRefused) => "connection refused"@,
        ClientError::Connect(ConnectError::Timeout) => "connection timed out"@,
        ClientError::Io => "connection failed"@,
        ClientError::Cancelled => "cancelled"@,
    }
}

impl ClientError {
    /// The words that name this error.
    pub fn reason(&self) -> (r: &'static str)
        ensures
            r@ == reason_text(*self),
    {
        match self {
            ClientError::Parse(ParseError::UnsupportedScheme) => "unsupported scheme",
            ClientError::Parse(ParseError::MalformedURL) => "malformed URL",
            ClientError::Parse(ParseError::EmptyHost) => "empty host",
            ClientError::Parse(ParseError::InvalidPort) => "invalid port",
            ClientError::Parse(ParseError::MalformedResponse) => "malformed response",
            ClientError::Connect(ConnectError::DnsFailure) => "host not found",
            ClientError::Connect(ConnectError::ConnectionRefused) => "connection refused",
            ClientError::Connect(ConnectError::Timeout) => "connection timed out",
            ClientError::Io => "connection failed",
            ClientError::Cancelled => "cancelled",
        }
    }

    /// The message for this error: the words that name it, `: `, and the
    /// input that it is about, as it was given.
    pub fn describe(&self, input: &str) -> (r: String)
        ensures
            r@ == reason_text(*self) + ": "@ + input@,
    {
        let mut r = String::from_str(self.reason());
        r.append(": ");
        r.append(input);
        r
    }
}

} // verus!
