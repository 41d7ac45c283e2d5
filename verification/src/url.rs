//! Addresses: the scheme, host, port and path that a URL names.

use crate::ascii::{COLON, SLASH};
use crate::decimal::{
    decimal, lemma_decimal_digits, lemma_parse_decimal_round_trip, parse_bounded, parse_decimal,
    push_decimal_text,
};
use crate::error::ParseError;
use crate::scan::{
    bytes_eq, find, find_byte, free_of, lemma_find_byte, lemma_find_byte_first, lemma_find_first,
    lemma_find_from, lemma_rfind_byte, lemma_rfind_byte_last, lemma_rfind_byte_none, locate,
    locate_byte, locate_last_byte, occurs_at, rfind_byte,
};
use crate::text::{lemma_ascii_boundary, lemma_encode_concat, str_slice};
use vstd::prelude::*;
use vstd::slice::slice_subrange;
use vstd::string::*;
use vstd::utf8::*;

verus! {

/// The port of a URL that names none.
pub const DEFAULT_PORT: u16 = 80;

/// A supported URL scheme.
#[derive(Clone, Copy, Debug, PartialEq, Eq, Structural)]
pub enum Scheme {
    Http,
}

/// The bytes `://`, which end the scheme of a URL.
pub open spec fn scheme_separator() -> Seq<u8> {
    "://".spec_bytes()
}

/// The token by which a URL names a scheme.
pub open spec fn scheme_token(scheme: Scheme) -> Seq<u8> {
    match scheme {
        Scheme::Http => "http".spec_bytes(),
    }
}

/// The supported scheme that `token` names, letter case counting.
pub open spec fn scheme_of(token: Seq<u8>) -> Option<Scheme> {
    if token == scheme_token(Scheme::Http) {
        Some(Scheme::Http)
    } else {
        None
    }
}

/// The protocol version that requests under a scheme announce.
pub open spec fn protocol_version(scheme: Scheme) -> Seq<u8> {
    match scheme {
        Scheme::Http => "HTTP/1.1".spec_bytes(),
    }
}

impl Scheme {
    /// Looks a scheme token up among the supported schemes.
    pub fn from_token(token: &[u8]) -> (r: Option<Scheme>)
        ensures
            r == scheme_of(token@),
    {
        if bytes_eq(token, "http".as_bytes()) {
            Some(Scheme::Http)
        } else {
            None
        }
    }

    /// The protocol version that requests under this scheme announce.
    pub fn protocol(&self) -> (r: &'static str)
        ensures
            r.spec_bytes() == protocol_version(*self),
    {
        match self {
            Scheme::Http => "HTTP/1.1",
        }
    }
}

/// What a URL names: the mathematical value of a [`URL`].
pub struct Address {
    pub scheme: Scheme,
    pub host: Seq<u8>,
    pub port: u16,
    pub path: Seq<u8>,
}

impl Address {
    /// The path of an address begins with `/`.
    pub open spec fn wf(self) -> bool {
        self.path.len() > 0 && self.path[0] == SLASH
    }
}

/// A parsed URL. The host and the path borrow from the text that was parsed.
#[derive(Clone, Copy, Debug, PartialEq, Eq)]
pub struct URL<'a> {
    pub scheme: Scheme,
    pub hostname: &'a str,
    pub port: u16,
    pub pathname: &'a str,
}

impl<'a> View for URL<'a> {
    type V = Address;

    open spec fn view(&self) -> Address {
        Address {
            scheme: self.scheme,
            host: self.hostname.spec_bytes(),
            port: self.port,
            path: self.pathname.spec_bytes(),
        }
    }
}

impl<'a> URL<'a> {
    /// True when the path begins with `/`.
    pub open spec fn wf(&self) -> bool {
        self@.wf()
    }

    /// Puts an address together from its parts.
    pub fn new(scheme: Scheme, hostname: &'a str, port: u16, pathname: &'a str) -> (r: URL<'a>)
        requires
            pathname.spec_bytes().len() > 0,
            pathname.spec_bytes()[0] == SLASH,
        ensures
            r.wf(),
            r.scheme == scheme,
            r.hostname == hostname,
            r.port == port,
            r.pathname == pathname,
    {
        URL { scheme, hostname, port, pathname }
    }

    /// The address to connect to, as text: the host, `:` and the port.
    pub fn socket_addr(&self) -> (r: String)
        ensures
            encode_utf8(r@) == self@.host + seq![COLON] + decimal(self.port as nat),
    {
        let mut r = String::from_str(self.hostname);
        r.append(":");
        proof {
            reveal_strlit(":");
            is_ascii_spec_bytes(":");
            lemma_encode_concat(self.hostname@, ":"@);
            assert(":".spec_bytes() =~= seq![COLON]);
        }
        push_decimal_text(&mut r, self.port as usize);
        r
    }
}

/// The host and port that an authority names. The authority is cut at its
/// last `:`; without one the port is the default port.
pub open spec fn parse_authority(authority: Seq<u8>) -> Result<(Seq<u8>, u16), ParseError> {
    let (host, port) = match rfind_byte(authority, COLON) {
        Some(k) => (
            authority.subrange(0, k),
            parse_decimal(authority.subrange(k + 1, authority.len() as int), u16::MAX as nat),
        ),
        None => (authority, Some(DEFAULT_PORT as nat)),
    };
    match port {
        None => Err(ParseError::InvalidPort),
        Some(p) => if host.len() == 0 {
            Err(ParseError::EmptyHost)
        } else {
            Ok((host, p as u16))
        },
    }
}

/// The address that the bytes of a URL name, or the reason why they name none.
///
/// The scheme ends at the first `://` and must be a supported one. What
/// follows is cut at its first `/` into the authority and the path, which
/// keeps that `/`.
pub open spec fn parse_address(raw: Seq<u8>) -> Result<Address, ParseError> {
    match find(raw, scheme_separator()) {
        None => Err(ParseError::MalformedURL),
        Some(i) => match scheme_of(raw.subrange(0, i)) {
            None => Err(ParseError::UnsupportedScheme),
            Some(scheme) => {
                let rest = raw.subrange(i + scheme_separator().len(), raw.len() as int);
                match find_byte(rest, SLASH) {
                    None => Err(ParseError::MalformedURL),
                    Some(j) => match parse_authority(rest.subrange(0, j)) {
                        Err(e) => Err(e),
                        Ok((host, port)) => Ok(
                            Address { scheme, host, port, path: rest.subrange(j, rest.len() as int) },
                        ),
                    },
                }
            },
        },
    }
}

/// Parses a URL of the form `scheme://host[:port]/path`.
pub fn parse_url<'a>(url: &'a str) -> (r: Result<URL<'a>, ParseError>)
    ensures
        match r {
            Ok(u) => parse_address(url.spec_bytes()) == Ok::<Address, ParseError>(u@) && u.wf(),
            Err(e) => parse_address(url.spec_bytes()) == Err::<Address, ParseError>(e),
        },
{
    let bytes = url.as_bytes();
    let len = bytes.len();
    let separator = "://".as_bytes();
    let i = match locate(bytes, separator) {
        None => { return Err(ParseError::MalformedURL); },
        Some(i) => i,
    };
    proof {
        lemma_find_from(bytes@, separator@, 0);
        assert(occurs_at(bytes@, separator@, i as int));
    }
    let scheme = match Scheme::from_token(slice_subrange(bytes, 0, i)) {
        None => { return Err(ParseError::UnsupportedScheme); },
        Some(scheme) => scheme,
    };
    let start = i + separator.len();
    let rest = slice_subrange(bytes, start, len);
    let j = match locate_byte(rest, SLASH) {
        None => { return Err(ParseError::MalformedURL); },
        Some(j) => j,
    };
    proof {
        lemma_find_byte(rest@, SLASH);
    }
    let authority = slice_subrange(rest, 0, j);
    proof {
        lemma_rfind_byte(authority@, COLON);
    }
    let (host_end, port) = match locate_last_byte(authority, COLON) {
        Some(k) => {
            let digits = slice_subrange(authority, k + 1, authority.len());
            match parse_bounded(digits, 65535) {
                None => { return Err(ParseError::InvalidPort); },
                Some(p) => (k, p as u16),
            }
        },
        None => (j, DEFAULT_PORT),
    };
    if host_end == 0 {
        return Err(ParseError::EmptyHost);
    }
    proof {
        reveal_strlit("://");
        is_ascii_spec_bytes("://");
        encode_utf8_valid_utf8(url@);
        assert(bytes@[start - 1] == separator@[2]);
        lemma_ascii_boundary(bytes@, start - 1);
        assert(bytes@[start + j] == rest@[j as int]);
        lemma_ascii_boundary(bytes@, start + j);
        assert(bytes@[start + host_end] == rest@[host_end as int]);
        lemma_ascii_boundary(bytes@, start + host_end);
        is_char_boundary_start_end_of_seq(bytes@);
    }
    let hostname = str_slice(url, start, start + host_end);
    let pathname = str_slice(url, start + j, len);
    proof {
        assert(hostname.spec_bytes() =~= authority@.subrange(0, host_end as int));
        assert(pathname.spec_bytes() =~= rest@.subrange(j as int, rest@.len() as int));
        assert(authority@.subrange(0, authority@.len() as int) =~= authority@);
        assert(parse_authority(authority@) == Ok::<(Seq<u8>, u16), ParseError>(
            (hostname.spec_bytes(), port),
        ));
    }
    Ok(URL { scheme, hostname, port, pathname })
}

/// How a port is written in a URL: nothing where it is left out, else `:` and
/// its decimal numeral.
pub open spec fn port_text(port: Option<u16>) -> Seq<u8> {
    match port {
        Some(p) => seq![COLON] + decimal(p as nat),
        None => Seq::empty(),
    }
}

/// The text `scheme://host[:port]path` of a URL.
pub open spec fn url_text(scheme: Scheme, host: Seq<u8>, port: Option<u16>, path: Seq<u8>) -> Seq<
    u8,
> {
    scheme_token(scheme) + scheme_separator() + host + port_text(port) + path
}

/// Parsing the text of a URL gives back its host, port and path, with the
/// default port where the text names none.
///
/// This holds for a host that is not empty and holds no `/`, and no `:` where
/// the port is left out, and for a path that begins with `/`.
pub proof fn lemma_parse_round_trip(
    scheme: Scheme,
    host: Seq<u8>,
    port: Option<u16>,
    path: Seq<u8>,
)
    requires
        host.len() > 0,
        free_of(host, SLASH),
        port is None ==> free_of(host, COLON),
        path.len() > 0,
        path[0] == SLASH,
    ensures
        parse_address(url_text(scheme, host, port, path)) == Ok::<Address, ParseError>(
            Address {
                scheme,
                host,
                port: match port {
                    Some(p) => p,
                    None => DEFAULT_PORT,
                },
                path,
            },
        ),
{
    let token = scheme_token(scheme);
    let separator = scheme_separator();
    let raw = url_text(scheme, host, port, path);
    reveal_strlit("http");
    reveal_strlit("://");
    is_ascii_spec_bytes("http");
    is_ascii_spec_bytes("://");
    assert(token.len() == 4 && separator.len() == 3);
    assert(raw.subrange(4, 7) =~= separator);
    assert forall|j: int| 0 <= j < 4 implies !occurs_at(raw, separator, j) by {
        assert(raw.subrange(j, j + 3)[0] == token[j]);
    }
    lemma_find_first(raw, separator, 4);
    assert(raw.subrange(0, 4) =~= token);

    let authority = host + port_text(port);
    let rest = raw.subrange(7, raw.len() as int);
    assert(rest =~= authority + path);
    if port is Some {
        lemma_decimal_digits(port.unwrap() as nat);
    }
    assert(free_of(authority, SLASH)) by {
        assert forall|i: int| 0 <= i < authority.len() implies authority[i] != SLASH by {
            if i > host.len() {
                assert(authority[i] == decimal(port.unwrap() as nat)[i - host.len() - 1]);
            }
        }
    }
    assert(rest.take(authority.len() as int) =~= authority);
    lemma_find_byte_first(rest, SLASH, authority.len() as int);
    assert(rest.subrange(0, authority.len() as int) =~= authority);
    assert(rest.subrange(authority.len() as int, rest.len() as int) =~= path);

    match port {
        Some(p) => {
            let digits = decimal(p as nat);
            assert(authority.skip(host.len() as int + 1) =~= digits);
            lemma_rfind_byte_last(authority, COLON, host.len() as int);
            assert(authority.subrange(0, host.len() as int) =~= host);
            assert(authority.subrange(host.len() as int + 1, authority.len() as int) =~= digits);
            lemma_parse_decimal_round_trip(p as nat, u16::MAX as nat);
        },
        None => {
            assert(authority =~= host);
            lemma_rfind_byte_none(authority, COLON);
        },
    }
}

} // verus!
