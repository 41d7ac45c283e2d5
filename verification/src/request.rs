//! Request messages and their wire form.

use crate::ascii::{crlf, lemma_crlf_text};
use crate::decimal::{decimal, push_decimal};
use crate::scan::bytes_eq;
use crate::url::{protocol_version, URL};
use vstd::prelude::*;
use vstd::slice::slice_to_vec;
use vstd::string::*;
use vstd::utf8::*;

verus! {

/// The first line of a request.
pub open spec fn request_line(method: Seq<u8>, target: Seq<u8>, version: Seq<u8>) -> Seq<u8> {
    method + " ".spec_bytes() + target + " ".spec_bytes() + version + crlf()
}

/// A header line that the library writes: the name, `: `, the value and the
/// line terminator.
pub open spec fn header_line(name: Seq<u8>, value: Seq<u8>) -> Seq<u8> {
    name + ": ".spec_bytes() + value + crlf()
}

/// The headers that every request carries, in their order.
pub open spec fn standard_headers(host: Seq<u8>) -> Seq<Seq<u8>> {
    seq![
        header_line("Host".spec_bytes(), host),
        header_line("User-Agent".spec_bytes(), "Curl-rs 1.0".spec_bytes()),
        header_line("Accept".spec_bytes(), "*/*".spec_bytes()),
        header_line("Connection".spec_bytes(), "close".spec_bytes()),
    ]
}

/// True for the methods whose requests describe a payload: `POST` and `PUT`.
pub open spec fn takes_entity(method: Seq<u8>) -> bool {
    method == "POST".spec_bytes() || method == "PUT".spec_bytes()
}

/// The headers that describe the payload. Only `POST` and `PUT` have any: the
/// caller's lines as they are, or the default content type where the caller
/// gave none.
pub open spec fn entity_headers(method: Seq<u8>, custom: Seq<Seq<u8>>) -> Seq<Seq<u8>> {
    if !takes_entity(method) {
        Seq::empty()
    } else if custom.len() > 0 {
        custom
    } else {
        seq![header_line("Content-Type".spec_bytes(), "application/json".spec_bytes())]
    }
}

/// The header that frames the body: its length in bytes, whatever the method.
pub open spec fn length_headers(body: Option<Seq<u8>>) -> Seq<Seq<u8>> {
    match body {
        Some(b) => seq![header_line("Content-Length".spec_bytes(), decimal(b.len()))],
        None => Seq::empty(),
    }
}

/// The mathematical value of a [`RequestMessage`].
pub struct RequestModel {
    pub method: Seq<u8>,
    pub target: Seq<u8>,
    pub protocol_version: Seq<u8>,
    pub headers: Seq<Seq<u8>>,
    pub body: Option<Seq<u8>>,
}

impl RequestModel {
    /// A message with a body ends its headers with the length of that body.
    pub open spec fn wf(self) -> bool {
        self.body matches Some(b) ==> self.headers.len() > 0 && self.headers.last()
            == header_line("Content-Length".spec_bytes(), decimal(b.len()))
    }

    /// The bytes that go on the wire: the request line, the header lines, a
    /// blank line, and the body with a line terminator after it.
    pub open spec fn wire(self) -> Seq<u8> {
        request_line(self.method, self.target, self.protocol_version) + self.headers.flatten()
            + crlf() + match self.body {
            Some(b) => b + crlf(),
            None => Seq::empty(),
        }
    }
}

/// The request that the builder makes of its arguments.
pub open spec fn request_model(
    protocol: Seq<u8>,
    host: Seq<u8>,
    path: Seq<u8>,
    method: Seq<u8>,
    data: Option<Seq<u8>>,
    headers: Seq<Seq<u8>>,
) -> RequestModel {
    RequestModel {
        method,
        target: path,
        protocol_version: protocol,
        headers: standard_headers(host) + entity_headers(method, headers) + length_headers(data),
        body: data,
    }
}

/// The serialised request that the builder makes of its arguments.
pub open spec fn request_bytes(
    protocol: Seq<u8>,
    host: Seq<u8>,
    path: Seq<u8>,
    method: Seq<u8>,
    data: Option<Seq<u8>>,
    headers: Seq<Seq<u8>>,
) -> Seq<u8> {
    request_model(protocol, host, path, method, data, headers).wire()
}

/// The bytes of each of a list of strings.
pub open spec fn lines_of(lines: Seq<&str>) -> Seq<Seq<u8>> {
    Seq::new(lines.len(), |i: int| lines[i].spec_bytes())
}

/// The bytes of an optional string.
pub open spec fn body_of(data: Option<&String>) -> Option<Seq<u8>> {
    match data {
        Some(d) => Some(encode_utf8(d@)),
        None => None,
    }
}

/// The contents of each of a list of byte vectors.
pub open spec fn contents(lines: Seq<Vec<u8>>) -> Seq<Seq<u8>> {
    Seq::new(lines.len(), |i: int| lines[i]@)
}

/// Appends `bytes` to `out`.
fn push_bytes(out: &mut Vec<u8>, bytes: &[u8])
    ensures
        final(out)@ == old(out)@ + bytes@,
{
    out.extend_from_slice(bytes);
    assert(out@ =~= old(out)@ + bytes@);
}

/// Makes the header line of a name and a value.
fn make_header_line(name: &str, value: &[u8]) -> (line: Vec<u8>)
    ensures
        line@ == header_line(name.spec_bytes(), value@),
{
    let mut line: Vec<u8> = Vec::new();
    push_bytes(&mut line, name.as_bytes());
    push_bytes(&mut line, ": ".as_bytes());
    push_bytes(&mut line, value);
    push_bytes(&mut line, "\r\n".as_bytes());
    proof {
        lemma_crlf_text();
    }
    assert(line@ =~= header_line(name.spec_bytes(), value@));
    line
}

/// Tells whether requests with this method describe a payload.
pub fn method_takes_entity(method: &str) -> (r: bool)
    ensures
        r == takes_entity(method.spec_bytes()),
{
    bytes_eq(method.as_bytes(), "POST".as_bytes()) || bytes_eq(method.as_bytes(), "PUT".as_bytes())
}

/// A request, before it is serialised.
///
/// Each header is one line as it goes on the wire. The lines that the library
/// writes end with a line terminator; a caller's lines are kept as they came.
#[derive(Debug, PartialEq, Eq)]
pub struct RequestMessage {
    pub method: Vec<u8>,
    pub target: Vec<u8>,
    pub protocol_version: Vec<u8>,
    pub headers: Vec<Vec<u8>>,
    pub body: Option<Vec<u8>>,
}

impl View for RequestMessage {
    type V = RequestModel;

    open spec fn view(&self) -> RequestModel {
        RequestModel {
            method: self.method@,
            target: self.target@,
            protocol_version: self.protocol_version@,
            headers: contents(self.headers@),
            body: match self.body {
                Some(b) => Some(b@),
                None => None,
            },
        }
    }
}

/// Applies the builder's rules to the parts of a request.
fn assemble(
    protocol: &str,
    host: &str,
    path: &str,
    method: &str,
    data: Option<&String>,
    headers: &Vec<&str>,
) -> (r: RequestMessage)
    ensures
        r@ == request_model(
            protocol.spec_bytes(),
            host.spec_bytes(),
            path.spec_bytes(),
            method.spec_bytes(),
            body_of(data),
            lines_of(headers@),
        ),
{
    let mut lines: Vec<Vec<u8>> = Vec::new();
    lines.push(make_header_line("Host", host.as_bytes()));
    lines.push(make_header_line("User-Agent", "Curl-rs 1.0".as_bytes()));
    lines.push(make_header_line("Accept", "*/*".as_bytes()));
    lines.push(make_header_line("Connection", "close".as_bytes()));
    assert(contents(lines@) =~= standard_headers(host.spec_bytes()));
    let ghost standard = contents(lines@);
    let ghost entity = entity_headers(method.spec_bytes(), lines_of(headers@));
    if method_takes_entity(method) {
        if headers.len() > 0 {
            let mut i: usize = 0;
            while i < headers.len()
                invariant
                    i <= headers.len(),
                    contents(lines@) == standard + lines_of(headers@).take(i as int),
                decreases headers.len() - i,
            {
                let ghost before = contents(lines@);
                lines.push(slice_to_vec(headers[i].as_bytes()));
                assert(contents(lines@) =~= before.push(lines_of(headers@)[i as int]));
                assert(lines_of(headers@).take(i + 1) =~= lines_of(headers@).take(i as int).push(
                    lines_of(headers@)[i as int],
                ));
                i = i + 1;
            }
            assert(lines_of(headers@).take(i as int) =~= lines_of(headers@));
        } else {
            lines.push(make_header_line("Content-Type", "application/json".as_bytes()));
            assert(contents(lines@) =~= standard + entity);
        }
    } else {
        assert(contents(lines@) =~= standard + entity);
    }
    let body = match data {
        Some(d) => {
            let bytes = d.as_str().as_bytes();
            let mut digits: Vec<u8> = Vec::new();
            push_decimal(&mut digits, bytes.len());
            assert(digits@ =~= decimal(bytes@.len()));
            let ghost before = contents(lines@);
            lines.push(make_header_line("Content-Length", digits.as_slice()));
            assert(contents(lines@) =~= before + length_headers(body_of(data)));
            Some(slice_to_vec(bytes))
        },
        None => {
            assert(contents(lines@) =~= contents(lines@) + length_headers(body_of(data)));
            None
        },
    };
    RequestMessage {
        method: slice_to_vec(method.as_bytes()),
        target: slice_to_vec(path.as_bytes()),
        protocol_version: slice_to_vec(protocol.as_bytes()),
        headers: lines,
        body,
    }
}

impl RequestMessage {
    /// True when a message with a body ends its headers with the length of
    /// that body.
    pub open spec fn wf(&self) -> bool {
        self@.wf()
    }

    /// Builds the request for an address: the request line with the path and
    /// the protocol version of the scheme, the standard headers, the headers
    /// that describe the payload, and the length of the body where there is one.
    pub fn build(address: &URL, method: &str, headers: Vec<&str>, body: Option<&String>) -> (r:
        RequestMessage)
        ensures
            r@ == request_model(
                protocol_version(address.scheme),
                address@.host,
                address@.path,
                method.spec_bytes(),
                body_of(body),
                lines_of(headers@),
            ),
            r.wf(),
    {
        assemble(
            address.scheme.protocol(),
            address.hostname,
            address.pathname,
            method,
            body,
            &headers,
        )
    }

    /// Writes the message as the bytes that go on the wire.
    pub fn serialize(&self) -> (out: Vec<u8>)
        ensures
            out@ == self@.wire(),
    {
        let mut out: Vec<u8> = Vec::new();
        proof {
            lemma_crlf_text();
        }
        push_bytes(&mut out, self.method.as_slice());
        push_bytes(&mut out, " ".as_bytes());
        push_bytes(&mut out, self.target.as_slice());
        push_bytes(&mut out, " ".as_bytes());
        push_bytes(&mut out, self.protocol_version.as_slice());
        push_bytes(&mut out, "\r\n".as_bytes());
        assert(out@ =~= request_line(self@.method, self@.target, self@.protocol_version));
        let ghost first = out@;
        let ghost lines = contents(self.headers@);
        let mut i: usize = 0;
        assert(lines.take(0).flatten() =~= Seq::<u8>::empty());
        while i < self.headers.len()
            invariant
                i <= self.headers.len(),
                lines == contents(self.headers@),
                out@ == first + lines.take(i as int).flatten(),
            decreases self.headers.len() - i,
        {
            push_bytes(&mut out, self.headers[i].as_slice());
            proof {
                assert(lines.take(i + 1) =~= lines.take(i as int).push(lines[i as int]));
                lines.take(i as int).lemma_flatten_push(lines[i as int]);
            }
            i = i + 1;
        }
        assert(lines.take(i as int) =~= lines);
        push_bytes(&mut out, "\r\n".as_bytes());
        match &self.body {
            Some(b) => {
                push_bytes(&mut out, b.as_slice());
                push_bytes(&mut out, "\r\n".as_bytes());
            },
            None => {},
        }
        assert(out@ =~= self@.wire());
        out
    }
}

/// A request without a payload, under a method other than `POST` and `PUT`, is
/// the request line, the four standard headers and one blank line: it has no
/// other header, whatever lines the caller gave.
pub proof fn lemma_plain_request(
    protocol: Seq<u8>,
    host: Seq<u8>,
    path: Seq<u8>,
    method: Seq<u8>,
    headers: Seq<Seq<u8>>,
)
    requires
        !takes_entity(method),
    ensures
        request_model(protocol, host, path, method, None, headers).headers == standard_headers(
            host,
        ),
        request_bytes(protocol, host, path, method, None, headers) == request_line(
            method,
            path,
            protocol,
        ) + header_line("Host".spec_bytes(), host) + header_line(
            "User-Agent".spec_bytes(),
            "Curl-rs 1.0".spec_bytes(),
        ) + header_line("Accept".spec_bytes(), "*/*".spec_bytes()) + header_line(
            "Connection".spec_bytes(),
            "close".spec_bytes(),
        ) + crlf(),
{
    let standard = standard_headers(host);
    let model = request_model(protocol, host, path, method, None, headers);
    assert(model.headers =~= standard);
    reveal_with_fuel(Seq::flatten, 5);
    assert(standard.flatten() =~= standard[0] + standard[1] + standard[2] + standard[3]);
    assert(model.wire() =~= request_line(method, path, protocol) + standard[0] + standard[1]
        + standard[2] + standard[3] + crlf());
}

/// A request with a payload ends with the length of the payload as its last
/// header, a blank line, the payload and a line terminator, whatever the
/// method.
pub proof fn lemma_request_with_body(
    protocol: Seq<u8>,
    host: Seq<u8>,
    path: Seq<u8>,
    method: Seq<u8>,
    body: Seq<u8>,
    headers: Seq<Seq<u8>>,
)
    ensures
        request_model(protocol, host, path, method, Some(body), headers).wf(),
        request_bytes(protocol, host, path, method, Some(body), headers) == request_line(
            method,
            path,
            protocol,
        ) + (standard_headers(host) + entity_headers(method, headers)).flatten() + header_line(
            "Content-Length".spec_bytes(),
            decimal(body.len()),
        ) + crlf() + body + crlf(),
{
    let front = standard_headers(host) + entity_headers(method, headers);
    let length = header_line("Content-Length".spec_bytes(), decimal(body.len()));
    let model = request_model(protocol, host, path, method, Some(body), headers);
    assert(model.headers =~= front.push(length));
    front.lemma_flatten_push(length);
    assert(model.wire() =~= request_line(method, path, protocol) + front.flatten() + length
        + crlf() + body + crlf());
}

/// True for a header line that declares a length: one that begins with
/// `Content-Length:`.
pub open spec fn is_length_header(line: Seq<u8>) -> bool {
    let name = "Content-Length:".spec_bytes();
    line.len() >= name.len() && line.subrange(0, name.len() as int) == name
}

/// Where none of the caller's lines declares a length, a request with a
/// payload declares its length exactly once, in its last header, and a request
/// without a payload declares none.
pub proof fn lemma_one_length_header(
    protocol: Seq<u8>,
    host: Seq<u8>,
    path: Seq<u8>,
    method: Seq<u8>,
    data: Option<Seq<u8>>,
    headers: Seq<Seq<u8>>,
)
    requires
        forall|i: int| 0 <= i < headers.len() ==> !is_length_header(#[trigger] headers[i]),
    ensures
        ({
            let lines = request_model(protocol, host, path, method, data, headers).headers;
            forall|i: int|
                0 <= i < lines.len() ==> (is_length_header(#[trigger] lines[i]) <==> (data is Some
                    && i == lines.len() - 1))
        }),
{
    reveal_strlit("Content-Length:");
    reveal_strlit("Content-Length");
    reveal_strlit("Content-Type");
    reveal_strlit("Connection");
    reveal_strlit("Accept");
    reveal_strlit("User-Agent");
    reveal_strlit("Host");
    reveal_strlit(": ");
    is_ascii_spec_bytes("Content-Length:");
    is_ascii_spec_bytes("Content-Length");
    is_ascii_spec_bytes("Content-Type");
    is_ascii_spec_bytes("Connection");
    is_ascii_spec_bytes("Accept");
    is_ascii_spec_bytes("User-Agent");
    is_ascii_spec_bytes("Host");
    is_ascii_spec_bytes(": ");
    let name = "Content-Length:".spec_bytes();
    let standard = standard_headers(host);
    let entity = entity_headers(method, headers);
    let length = length_headers(data);
    let lines = standard + entity + length;
    assert forall|i: int| 0 <= i < lines.len() implies (is_length_header(#[trigger] lines[i]) <==> (
    data is Some && i == lines.len() - 1)) by {
        let line = lines[i];
        let prefix = line.subrange(0, name.len() as int);
        if i < 4 {
            assert(line == standard[i]);
            if line.len() >= name.len() {
                if i == 3 {
                    assert(prefix[3] == line[3]);
                } else {
                    assert(prefix[0] == line[0]);
                }
            }
        } else if i < 4 + entity.len() {
            assert(line == entity[i - 4]);
            if !(takes_entity(method) && headers.len() > 0) {
                if line.len() >= name.len() {
                    assert(prefix[8] == line[8]);
                }
            }
        } else {
            assert(line == length[i - 4 - entity.len()]);
            assert(prefix =~= name);
        }
    }
}

/// Builds the serialised request for the given protocol version, host and
/// path: the request line, the standard headers, for `POST` and `PUT` the
/// caller's header lines or the default content type, and for a request with a
/// payload its length, a blank line and the payload.
pub fn populate_request(
    protocol: &str,
    host: &str,
    path: &str,
    method: &str,
    data: Option<&String>,
    headers: Vec<&str>,
) -> (r: Vec<u8>)
    ensures
        r@ == request_bytes(
            protocol.spec_bytes(),
            host.spec_bytes(),
            path.spec_bytes(),
            method.spec_bytes(),
            body_of(data),
            lines_of(headers@),
        ),
{
    assemble(protocol, host, path, method, data, &headers).serialize()
}

} // verus!
