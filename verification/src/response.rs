//! Response messages: the status line, the headers and the framing of the body.

use crate::ascii::{
    crlf, eq_ignore_case, equals_ignoring_case, lemma_crlf_text, trim, trim_blanks, COLON, SPACE,
};
use crate::decimal::{parse_bounded, parse_decimal};
use crate::error::ParseError;
use crate::scan::{find, find_byte, lemma_find_byte, lemma_find_from, locate, locate_byte};
use vstd::prelude::*;
use vstd::slice::{slice_subrange, slice_to_vec};
use vstd::string::*;

verus! {

/// How the end of a response body is found.
#[derive(Clone, Copy, Debug, PartialEq, Eq, Structural)]
pub enum Framing {
    /// The body has the declared number of bytes.
    ContentLength(usize),
    /// The body lasts until the peer closes the connection.
    UntilClose,
}

/// The name and the value of a header, as mathematical values.
pub type HeaderModel = (Seq<u8>, Seq<u8>);

/// The status code and the reason that a status line `version SP code SP
/// reason` gives. The version must not be empty, and the code must be a decimal
/// number that fits sixteen bits; the reason is what follows the second space.
pub open spec fn parse_status_line(line: Seq<u8>) -> Option<(u16, Seq<u8>)> {
    match find_byte(line, SPACE) {
        None => None,
        Some(i) => {
            let rest = line.subrange(i + 1, line.len() as int);
            match find_byte(rest, SPACE) {
                None => None,
                Some(j) => match parse_decimal(rest.subrange(0, j), u16::MAX as nat) {
                    None => None,
                    Some(code) => if i == 0 {
                        None
                    } else {
                        Some((code as u16, rest.subrange(j + 1, rest.len() as int)))
                    },
                },
            }
        },
    }
}

/// The name and the value that a header line gives: what stands before its
/// first `:`, and what stands after it without the blanks around.
pub open spec fn parse_header_line(line: Seq<u8>) -> Option<HeaderModel> {
    match find_byte(line, COLON) {
        None => None,
        Some(i) => Some((line.subrange(0, i), trim(line.subrange(i + 1, line.len() as int)))),
    }
}

/// The value of the first header of the given name, letter case not counting.
pub open spec fn header_value(headers: Seq<HeaderModel>, name: Seq<u8>) -> Option<Seq<u8>>
    decreases headers.len(),
{
    if headers.len() == 0 {
        None
    } else if eq_ignore_case(headers[0].0, name) {
        Some(headers[0].1)
    } else {
        header_value(headers.drop_first(), name)
    }
}

/// The framing that the headers ask for: the length that the first
/// `Content-Length` header declares, or until the connection closes where
/// there is no such header. `None` where the declared length is no number.
pub open spec fn framing_of(headers: Seq<HeaderModel>) -> Option<Framing> {
    match header_value(headers, "Content-Length".spec_bytes()) {
        None => Some(Framing::UntilClose),
        Some(v) => match parse_decimal(v, usize::MAX as nat) {
            Some(n) => Some(Framing::ContentLength(n as usize)),
            None => None,
        },
    }
}

/// A header of a response.
#[derive(Debug, PartialEq, Eq)]
pub struct Header {
    pub name: Vec<u8>,
    pub value: Vec<u8>,
}

impl View for Header {
    type V = HeaderModel;

    open spec fn view(&self) -> HeaderModel {
        (self.name@, self.value@)
    }
}

/// The name and value of each of a list of headers.
pub open spec fn header_models(headers: Seq<Header>) -> Seq<HeaderModel> {
    Seq::new(headers.len(), |i: int| headers[i]@)
}

/// Reads a status line, given without its line terminator.
pub fn read_status_line(line: &[u8]) -> (r: Option<(u16, Vec<u8>)>)
    ensures
        match r {
            Some((code, reason)) => parse_status_line(line@) == Some((code, reason@)),
            None => parse_status_line(line@) is None,
        },
{
    let len = line.len();
    let i = match locate_byte(line, SPACE) {
        None => { return None; },
        Some(i) => i,
    };
    proof {
        lemma_find_byte(line@, SPACE);
    }
    let rest = slice_subrange(line, i + 1, len);
    let j = match locate_byte(rest, SPACE) {
        None => { return None; },
        Some(j) => j,
    };
    proof {
        lemma_find_byte(rest@, SPACE);
    }
    let code = match parse_bounded(slice_subrange(rest, 0, j), 65535) {
        None => { return None; },
        Some(code) => code as u16,
    };
    if i == 0 {
        return None;
    }
    Some((code, slice_to_vec(slice_subrange(rest, j + 1, rest.len()))))
}

/// Reads a header line, given without its line terminator.
pub fn read_header_line(line: &[u8]) -> (r: Option<Header>)
    ensures
        match r {
            Some(h) => parse_header_line(line@) == Some(h@),
            None => parse_header_line(line@) is None,
        },
{
    let len = line.len();
    let i = match locate_byte(line, COLON) {
        None => { return None; },
        Some(i) => i,
    };
    proof {
        lemma_find_byte(line@, COLON);
    }
    let name = slice_to_vec(slice_subrange(line, 0, i));
    let value = slice_to_vec(trim_blanks(slice_subrange(line, i + 1, len)));
    Some(Header { name, value })
}

/// Finds the value of the first header of the given name, letter case not
/// counting.
pub fn find_header<'a>(headers: &'a Vec<Header>, name: &str) -> (r: Option<&'a Vec<u8>>)
    ensures
        match r {
            Some(v) => header_value(header_models(headers@), name.spec_bytes()) == Some(v@),
            None => header_value(header_models(headers@), name.spec_bytes()) is None,
        },
{
    let ghost all = header_models(headers@);
    let mut i: usize = 0;
    assert(all.skip(0) =~= all);
    while i < headers.len()
        invariant
            i <= headers.len(),
            all == header_models(headers@),
            header_value(all, name.spec_bytes()) == header_value(
                all.skip(i as int),
                name.spec_bytes(),
            ),
        decreases headers.len() - i,
    {
        assert(all.skip(i as int)[0] == headers@[i as int]@);
        if equals_ignoring_case(headers[i].name.as_slice(), name.as_bytes()) {
            return Some(&headers[i].value);
        }
        assert(all.skip(i as int).drop_first() =~= all.skip(i + 1));
        i = i + 1;
    }
    None
}

/// Decides from the headers how the end of the body is found.
pub fn read_framing(headers: &Vec<Header>) -> (r: Option<Framing>)
    ensures
        r == framing_of(header_models(headers@)),
{
    match find_header(headers, "Content-Length") {
        None => Some(Framing::UntilClose),
        Some(v) => match parse_bounded(v.as_slice(), usize::MAX as u64) {
            Some(n) => Some(Framing::ContentLength(n as usize)),
            None => None,
        },
    }
}

/// The headers of a header block and what follows the block. The block is a
/// run of header lines, each ended by a line terminator, closed by a blank
/// line. `None` where a line has no `:` or the blank line is missing.
pub open spec fn parse_header_block(bytes: Seq<u8>) -> Option<(Seq<HeaderModel>, Seq<u8>)>
    decreases bytes.len(),
    via parse_header_block_decreases
{
    match find(bytes, crlf()) {
        None => None,
        Some(i) => {
            let after = bytes.subrange(i + 2, bytes.len() as int);
            if i == 0 {
                Some((Seq::empty(), after))
            } else {
                match parse_header_line(bytes.subrange(0, i)) {
                    None => None,
                    Some(h) => match parse_header_block(after) {
                        None => None,
                        Some((hs, rest)) => Some((seq![h] + hs, rest)),
                    },
                }
            }
        },
    }
}

#[via_fn]
proof fn parse_header_block_decreases(bytes: Seq<u8>) {
    lemma_find_from(bytes, crlf(), 0);
}

/// The body that a framing cuts from the bytes after the headers: all of
/// them until the connection closes, or the declared number of them, the
/// rest being dropped. `None` where fewer bytes came than were declared.
pub open spec fn frame_body(framing: Framing, rest: Seq<u8>) -> Option<Seq<u8>> {
    match framing {
        Framing::UntilClose => Some(rest),
        Framing::ContentLength(n) => if rest.len() >= n {
            Some(rest.subrange(0, n as int))
        } else {
            None
        },
    }
}

/// The mathematical value of a [`ResponseMessage`].
pub struct ResponseModel {
    pub status_code: u16,
    pub status_text: Seq<u8>,
    pub headers: Seq<HeaderModel>,
    pub body: Seq<u8>,
}

impl ResponseModel {
    /// Where the headers declare a length, the body has that length.
    pub open spec fn wf(self) -> bool {
        framing_of(self.headers) matches Some(Framing::ContentLength(n)) ==> self.body.len() == n
    }
}

/// The response that the bytes received hold: a status line, a header block,
/// and the body as the headers frame it. `None` where they hold none.
pub open spec fn parse_message(bytes: Seq<u8>) -> Option<ResponseModel> {
    match find(bytes, crlf()) {
        None => None,
        Some(i) => match parse_status_line(bytes.subrange(0, i)) {
            None => None,
            Some((status_code, status_text)) => match parse_header_block(
                bytes.subrange(i + 2, bytes.len() as int),
            ) {
                None => None,
                Some((headers, rest)) => match framing_of(headers) {
                    None => None,
                    Some(framing) => match frame_body(framing, rest) {
                        None => None,
                        Some(body) => Some(
                            ResponseModel { status_code, status_text, headers, body },
                        ),
                    },
                },
            },
        },
    }
}

/// A response.
#[derive(Debug, PartialEq, Eq)]
pub struct ResponseMessage {
    pub status_code: u16,
    pub status_text: Vec<u8>,
    pub headers: Vec<Header>,
    pub body: Vec<u8>,
}

impl View for ResponseMessage {
    type V = ResponseModel;

    open spec fn view(&self) -> ResponseModel {
        ResponseModel {
            status_code: self.status_code,
            status_text: self.status_text@,
            headers: header_models(self.headers@),
            body: self.body@,
        }
    }
}

impl ResponseMessage {
    /// True where the body has the length that the headers declare, if they
    /// declare one.
    pub open spec fn wf(&self) -> bool {
        self@.wf()
    }
}

/// Reads the header block that starts at index `from`, and gives its headers
/// and the index at which the body starts.
pub fn read_header_block(bytes: &[u8], from: usize) -> (r: Option<(Vec<Header>, usize)>)
    requires
        from <= bytes@.len(),
    ensures
        match r {
            Some((headers, body_at)) => from <= body_at <= bytes@.len() && parse_header_block(
                bytes@.subrange(from as int, bytes@.len() as int),
            ) == Some((header_models(headers@), bytes@.subrange(body_at as int, bytes@.len() as int))),
            None => parse_header_block(bytes@.subrange(from as int, bytes@.len() as int)) is None,
        },
{
    let len = bytes.len();
    let ghost whole = parse_header_block(bytes@.subrange(from as int, len as int));
    let mut headers: Vec<Header> = Vec::new();
    let mut pos: usize = from;
    proof {
        lemma_crlf_text();
        match whole {
            None => {},
            Some((hs, rest)) => {
                assert(header_models(headers@) + hs =~= hs);
            },
        }
    }
    loop
        invariant
            from <= pos <= len,
            len == bytes@.len(),
            "\r\n".spec_bytes() == crlf(),
            whole == parse_header_block(bytes@.subrange(from as int, len as int)),
            whole == match parse_header_block(bytes@.subrange(pos as int, len as int)) {
                None => None,
                Some((hs, rest)) => Some((header_models(headers@) + hs, rest)),
            },
        decreases len - pos,
    {
        let tail = slice_subrange(bytes, pos, len);
        let k = match locate(tail, "\r\n".as_bytes()) {
            None => { return None; },
            Some(k) => k,
        };
        proof {
            lemma_find_from(tail@, crlf(), 0);
            assert(tail@.subrange(k + 2, tail@.len() as int) =~= bytes@.subrange(
                pos + k + 2,
                len as int,
            ));
        }
        if k == 0 {
            assert(header_models(headers@) + Seq::<HeaderModel>::empty() =~= header_models(
                headers@,
            ));
            return Some((headers, pos + 2));
        }
        let header = match read_header_line(slice_subrange(tail, 0, k)) {
            None => { return None; },
            Some(header) => header,
        };
        let ghost before = header_models(headers@);
        let ghost h = header@;
        headers.push(header);
        pos = pos + k + 2;
        proof {
            assert(header_models(headers@) =~= before.push(h));
            match parse_header_block(bytes@.subrange(pos as int, len as int)) {
                None => {},
                Some((hs, rest)) => {
                    assert(before + (seq![h] + hs) =~= before.push(h) + hs);
                },
            }
        }
    }
}

/// Parses a response from the bytes received.
///
/// The body is cut as the headers frame it: with a `Content-Length` its first
/// bytes up to that length, the rest being dropped; without one all that
/// follows the headers. The bytes are refused where the status line is not
/// `version SP code SP reason`, a header line has no `:`, the headers do not
/// end with a blank line, the declared length is no number, or the body is
/// shorter than declared.
pub fn parse_response(bytes: &[u8]) -> (r: Result<ResponseMessage, ParseError>)
    ensures
        match r {
            Ok(m) => parse_message(bytes@) == Some(m@) && m.wf(),
            Err(e) => e == ParseError::MalformedResponse && parse_message(bytes@) is None,
        },
{
    let len = bytes.len();
    proof {
        lemma_crlf_text();
    }
    let i = match locate(bytes, "\r\n".as_bytes()) {
        None => { return Err(ParseError::MalformedResponse); },
        Some(i) => i,
    };
    proof {
        lemma_find_from(bytes@, crlf(), 0);
    }
    let (status_code, status_text) = match read_status_line(slice_subrange(bytes, 0, i)) {
        None => { return Err(ParseError::MalformedResponse); },
        Some(status) => status,
    };
    let (headers, body_at) = match read_header_block(bytes, i + 2) {
        None => { return Err(ParseError::MalformedResponse); },
        Some(block) => block,
    };
    let framing = match read_framing(&headers) {
        None => { return Err(ParseError::MalformedResponse); },
        Some(framing) => framing,
    };
    let rest = slice_subrange(bytes, body_at, len);
    let body = match framing {
        Framing::UntilClose => slice_to_vec(rest),
        Framing::ContentLength(n) => {
            if rest.len() < n {
                return Err(ParseError::MalformedResponse);
            }
            slice_to_vec(slice_subrange(rest, 0, n))
        },
    };
    Ok(ResponseMessage { status_code, status_text, headers, body })
}

} // verus!
