//! One request/response exchange as a state machine.
//!
//! The machine does no input or output. It is told what happened on the
//! connection, one event at a time, and answers with the state it is in then
//! and with what to do next. The head of the response arrives line by line,
//! so that the framing of the body is known before the body is read.

use crate::ascii::{crlf, lemma_crlf_text};
use crate::error::{ClientError, ConnectError, ParseError};
use crate::response::{
    framing_of, header_models, parse_header_line, parse_status_line, read_framing,
    read_header_line, read_status_line, Framing, Header, HeaderModel, ResponseMessage,
    ResponseModel,
};
use crate::scan::{find, lemma_find_from, locate};
use vstd::prelude::*;
use vstd::slice::slice_subrange;
use vstd::string::*;

verus! {

/// What the driver of an exchange is to do next.
#[derive(Clone, Copy, Debug, PartialEq, Eq, Structural)]
pub enum Action {
    /// Open the connection.
    Connect,
    /// Send the request.
    Send,
    /// Read one line of the head, up to and with its line feed.
    ReadLine,
    /// Read bytes of the body, no more than this many.
    ReadBody(usize),
    /// Read bytes of the body, as many as come.
    ReadChunk,
    /// Close the connection: the exchange is over.
    Close,
}

/// What happened on the connection.
#[derive(Debug, PartialEq, Eq)]
pub enum Event {
    /// The connection is open.
    Connected,
    /// The connection could not be opened.
    ConnectFailed(ConnectError),
    /// The request was sent.
    Sent,
    /// A line of the head came, with its terminator.
    Line(Vec<u8>),
    /// Bytes of the body came.
    Data(Vec<u8>),
    /// The peer closed the connection.
    Closed,
    /// The socket failed.
    IoFailed,
    /// The peer did not answer in time.
    TimedOut,
    /// The caller gave the request up.
    Cancelled,
}

/// The mathematical value of an [`Event`].
pub enum EventModel {
    Connected,
    ConnectFailed(ConnectError),
    Sent,
    Line(Seq<u8>),
    Data(Seq<u8>),
    Closed,
    IoFailed,
    TimedOut,
    Cancelled,
}

impl View for Event {
    type V = EventModel;

    open spec fn view(&self) -> EventModel {
        match self {
            Event::Connected => EventModel::Connected,
            Event::ConnectFailed(e) => EventModel::ConnectFailed(*e),
            Event::Sent => EventModel::Sent,
            Event::Line(line) => EventModel::Line(line@),
            Event::Data(bytes) => EventModel::Data(bytes@),
            Event::Closed => EventModel::Closed,
            Event::IoFailed => EventModel::IoFailed,
            Event::TimedOut => EventModel::TimedOut,
            Event::Cancelled => EventModel::Cancelled,
        }
    }
}

/// The states of an exchange, in their order. `Failed` stands aside.
#[derive(Clone, Copy, Debug, PartialEq, Eq, Structural)]
pub enum Phase {
    Idle,
    Connected,
    Sent,
    AwaitingHeaders,
    AwaitingBody,
    Complete,
    Failed,
}

/// The place of a phase in the order of the exchange.
pub open spec fn rank(phase: Phase) -> nat {
    match phase {
        Phase::Idle => 0,
        Phase::Connected => 1,
        Phase::Sent => 2,
        Phase::AwaitingHeaders => 3,
        Phase::AwaitingBody => 4,
        Phase::Complete => 5,
        Phase::Failed => 6,
    }
}

/// An exchange: its state, and what of the response has come so far.
#[derive(Debug, PartialEq, Eq)]
pub enum Exchange {
    /// Nothing has happened yet.
    Idle,
    /// The connection is open.
    Connected,
    /// The request is sent.
    Sent,
    /// The status line has come; header lines are coming.
    AwaitingHeaders { status_code: u16, status_text: Vec<u8>, headers: Vec<Header> },
    /// The head has come; the body is coming.
    AwaitingBody {
        status_code: u16,
        status_text: Vec<u8>,
        headers: Vec<Header>,
        framing: Framing,
        body: Vec<u8>,
    },
    /// The response is whole.
    Complete(ResponseMessage),
    /// The exchange failed.
    Failed(ClientError),
}

/// The mathematical value of an [`Exchange`].
pub enum ExchangeModel {
    Idle,
    Connected,
    Sent,
    AwaitingHeaders { status_code: u16, status_text: Seq<u8>, headers: Seq<HeaderModel> },
    AwaitingBody {
        status_code: u16,
        status_text: Seq<u8>,
        headers: Seq<HeaderModel>,
        framing: Framing,
        body: Seq<u8>,
    },
    Complete(ResponseModel),
    Failed(ClientError),
}

impl View for Exchange {
    type V = ExchangeModel;

    open spec fn view(&self) -> ExchangeModel {
        match self {
            Exchange::Idle => ExchangeModel::Idle,
            Exchange::Connected => ExchangeModel::Connected,
            Exchange::Sent => ExchangeModel::Sent,
            Exchange::AwaitingHeaders { status_code, status_text, headers } => {
                ExchangeModel::AwaitingHeaders {
                    status_code: *status_code,
                    status_text: status_text@,
                    headers: header_models(headers@),
                }
            },
            Exchange::AwaitingBody { status_code, status_text, headers, framing, body } => {
                ExchangeModel::AwaitingBody {
                    status_code: *status_code,
                    status_text: status_text@,
                    headers: header_models(headers@),
                    framing: *framing,
                    body: body@,
                }
            },
            Exchange::Complete(response) => ExchangeModel::Complete(response@),
            Exchange::Failed(error) => ExchangeModel::Failed(*error),
        }
    }
}

impl ExchangeModel {
    /// The phase that the exchange is in.
    pub open spec fn phase(self) -> Phase {
        match self {
            ExchangeModel::Idle => Phase::Idle,
            ExchangeModel::Connected => Phase::Connected,
            ExchangeModel::Sent => Phase::Sent,
            ExchangeModel::AwaitingHeaders { .. } => Phase::AwaitingHeaders,
            ExchangeModel::AwaitingBody { .. } => Phase::AwaitingBody,
            ExchangeModel::Complete(_) => Phase::Complete,
            ExchangeModel::Failed(_) => Phase::Failed,
        }
    }

    /// True for the two states that no event leaves.
    pub open spec fn is_terminal(self) -> bool {
        self is Complete || self is Failed
    }

    /// While the body comes, its framing is the one that the headers ask for
    /// and it is no longer than declared; a whole response has the declared
    /// length.
    pub open spec fn wf(self) -> bool {
        match self {
            ExchangeModel::AwaitingBody { headers, framing, body, .. } => {
                &&& framing_of(headers) == Some(framing)
                &&& framing matches Framing::ContentLength(n) ==> body.len() <= n
            },
            ExchangeModel::Complete(response) => response.wf(),
            _ => true,
        }
    }
}

/// What a line of the head holds before its terminator. The terminator must
/// end the line and be the only one in it.
pub open spec fn line_content(line: Seq<u8>) -> Option<Seq<u8>> {
    match find(line, crlf()) {
        Some(i) => if i + 2 == line.len() {
            Some(line.subrange(0, i))
        } else {
            None
        },
        None => None,
    }
}

/// The error that an event stands for where it does not carry the exchange
/// on. Before the connection is open, a refusal and a timeout are failures to
/// connect; later, all but a cancellation are failures of the socket.
pub open spec fn failure_of(connecting: bool, event: EventModel) -> ClientError {
    match event {
        EventModel::Cancelled => ClientError::Cancelled,
        EventModel::ConnectFailed(e) => if connecting {
            ClientError::Connect(e)
        } else {
            ClientError::Io
        },
        EventModel::TimedOut => if connecting {
            ClientError::Connect(ConnectError::Timeout)
        } else {
            ClientError::Io
        },
        _ => ClientError::Io,
    }
}

/// The state of an exchange whose response broke the grammar.
pub open spec fn malformed() -> ExchangeModel {
    ExchangeModel::Failed(ClientError::Parse(ParseError::MalformedResponse))
}

/// The state after the first line of the response.
pub open spec fn after_status_line(line: Seq<u8>) -> ExchangeModel {
    match line_content(line) {
        None => malformed(),
        Some(content) => match parse_status_line(content) {
            None => malformed(),
            Some((status_code, status_text)) => ExchangeModel::AwaitingHeaders {
                status_code,
                status_text,
                headers: Seq::empty(),
            },
        },
    }
}

/// The state after a further line of the head: one more header, or, after the
/// blank line, the wait for the body under the framing that the headers ask
/// for.
pub open spec fn after_header_line(
    status_code: u16,
    status_text: Seq<u8>,
    headers: Seq<HeaderModel>,
    line: Seq<u8>,
) -> ExchangeModel {
    match line_content(line) {
        None => malformed(),
        Some(content) => if content.len() == 0 {
            match framing_of(headers) {
                None => malformed(),
                Some(framing) => ExchangeModel::AwaitingBody {
                    status_code,
                    status_text,
                    headers,
                    framing,
                    body: Seq::empty(),
                },
            }
        } else {
            match parse_header_line(content) {
                None => malformed(),
                Some(header) => ExchangeModel::AwaitingHeaders {
                    status_code,
                    status_text,
                    headers: headers.push(header),
                },
            }
        },
    }
}

/// How many bytes a body of `have` bytes still lacks under a declared length.
pub open spec fn missing(declared: usize, have: nat) -> nat {
    if have >= declared {
        0
    } else {
        (declared - have) as nat
    }
}

/// The state after bytes of the body. Under a declared length, only the bytes
/// that the body still lacks are kept, and the response is whole once the
/// body has that length.
pub open spec fn after_body_bytes(
    status_code: u16,
    status_text: Seq<u8>,
    headers: Seq<HeaderModel>,
    framing: Framing,
    body: Seq<u8>,
    chunk: Seq<u8>,
) -> ExchangeModel {
    match framing {
        Framing::UntilClose => ExchangeModel::AwaitingBody {
            status_code,
            status_text,
            headers,
            framing,
            body: body + chunk,
        },
        Framing::ContentLength(n) => {
            let room = missing(n, body.len());
            let grown = if chunk.len() <= room {
                body + chunk
            } else {
                body + chunk.subrange(0, room as int)
            };
            if grown.len() >= n {
                ExchangeModel::Complete(
                    ResponseModel { status_code, status_text, headers, body: grown },
                )
            } else {
                ExchangeModel::AwaitingBody { status_code, status_text, headers, framing, body: grown }
            }
        },
    }
}

/// The state after the peer closed while the body came: the response is
/// whole unless bytes of a declared length are still missing.
pub open spec fn after_close(
    status_code: u16,
    status_text: Seq<u8>,
    headers: Seq<HeaderModel>,
    framing: Framing,
    body: Seq<u8>,
) -> ExchangeModel {
    match framing {
        Framing::ContentLength(n) if body.len() < n => malformed(),
        _ => ExchangeModel::Complete(ResponseModel { status_code, status_text, headers, body }),
    }
}

/// The state that an event leads to.
pub open spec fn next_state(state: ExchangeModel, event: EventModel) -> ExchangeModel {
    match state {
        ExchangeModel::Idle => match event {
            EventModel::Connected => ExchangeModel::Connected,
            _ => ExchangeModel::Failed(failure_of(true, event)),
        },
        ExchangeModel::Connected => match event {
            EventModel::Sent => ExchangeModel::Sent,
            _ => ExchangeModel::Failed(failure_of(false, event)),
        },
        ExchangeModel::Sent => match event {
            EventModel::Line(line) => after_status_line(line),
            EventModel::Closed => malformed(),
            _ => ExchangeModel::Failed(failure_of(false, event)),
        },
        ExchangeModel::AwaitingHeaders { status_code, status_text, headers } => match event {
            EventModel::Line(line) => after_header_line(status_code, status_text, headers, line),
            EventModel::Closed => malformed(),
            _ => ExchangeModel::Failed(failure_of(false, event)),
        },
        ExchangeModel::AwaitingBody { status_code, status_text, headers, framing, body } => {
            match event {
                EventModel::Data(chunk) => after_body_bytes(
                    status_code,
                    status_text,
                    headers,
                    framing,
                    body,
                    chunk,
                ),
                EventModel::Closed => after_close(status_code, status_text, headers, framing, body),
                _ => ExchangeModel::Failed(failure_of(false, event)),
            }
        },
        ExchangeModel::Complete(_) => state,
        ExchangeModel::Failed(_) => state,
    }
}

/// What the driver is to do in a state.
pub open spec fn pending_action(state: ExchangeModel) -> Action {
    match state {
        ExchangeModel::Idle => Action::Connect,
        ExchangeModel::Connected => Action::Send,
        ExchangeModel::Sent => Action::ReadLine,
        ExchangeModel::AwaitingHeaders { .. } => Action::ReadLine,
        ExchangeModel::AwaitingBody { framing, body, .. } => match framing {
            Framing::UntilClose => Action::ReadChunk,
            Framing::ContentLength(n) => Action::ReadBody(missing(n, body.len()) as usize),
        },
        ExchangeModel::Complete(_) => Action::Close,
        ExchangeModel::Failed(_) => Action::Close,
    }
}

/// No transition skips a state: an event leaves the exchange in its phase,
/// takes it to the next one, or fails it.
pub proof fn lemma_step_in_order(state: ExchangeModel, event: EventModel)
    ensures
        ({
            let next = next_state(state, event);
            ||| next is Failed
            ||| rank(next.phase()) == rank(state.phase())
            ||| rank(next.phase()) == rank(state.phase()) + 1
        }),
{
}

/// `Complete` and `Failed` are terminal: no event changes them, and all that
/// is left to do is to close the connection.
pub proof fn lemma_terminal_states_stay(state: ExchangeModel, event: EventModel)
    requires
        state.is_terminal(),
    ensures
        next_state(state, event) == state,
        pending_action(state) == Action::Close,
{
}

/// `Failed` is reachable from every state that is not terminal: a
/// cancellation, a failure of the socket and a timeout each lead there.
pub proof fn lemma_failure_reachable(state: ExchangeModel)
    requires
        !state.is_terminal(),
    ensures
        next_state(state, EventModel::Cancelled) == ExchangeModel::Failed(ClientError::Cancelled),
        next_state(state, EventModel::IoFailed) == ExchangeModel::Failed(ClientError::Io),
        next_state(state, EventModel::TimedOut) is Failed,
{
}

/// A response becomes whole only while its body is awaited.
pub proof fn lemma_complete_comes_from_body(state: ExchangeModel, event: EventModel)
    requires
        next_state(state, event) is Complete,
    ensures
        state is AwaitingBody || state is Complete,
{
}

/// Every event keeps a well-formed exchange well-formed. So a response that
/// the machine completes has the length that its headers declare.
pub proof fn lemma_step_keeps_wf(state: ExchangeModel, event: EventModel)
    requires
        state.wf(),
    ensures
        next_state(state, event).wf(),
{
}

/// Takes the terminator off a line of the head.
pub fn strip_line(line: &[u8]) -> (r: Option<&[u8]>)
    ensures
        match r {
            Some(content) => line_content(line@) == Some(content@),
            None => line_content(line@) is None,
        },
{
    let len = line.len();
    proof {
        lemma_crlf_text();
        lemma_find_from(line@, crlf(), 0);
    }
    match locate(line, "\r\n".as_bytes()) {
        Some(i) => if len - i == 2 {
            Some(slice_subrange(line, 0, i))
        } else {
            None
        },
        None => None,
    }
}

/// The error that an event stands for where it does not carry the exchange
/// on.
pub fn failure(connecting: bool, event: &Event) -> (r: ClientError)
    ensures
        r == failure_of(connecting, event@),
{
    match event {
        Event::Cancelled => ClientError::Cancelled,
        Event::ConnectFailed(e) => if connecting {
            ClientError::Connect(*e)
        } else {
            ClientError::Io
        },
        Event::TimedOut => if connecting {
            ClientError::Connect(ConnectError::Timeout)
        } else {
            ClientError::Io
        },
        _ => ClientError::Io,
    }
}

/// The state of an exchange whose response broke the grammar.
fn failed_malformed() -> (r: Exchange)
    ensures
        r@ == malformed(),
{
    Exchange::Failed(ClientError::Parse(ParseError::MalformedResponse))
}

/// The state after the first line of the response.
fn on_status_line(line: &[u8]) -> (r: Exchange)
    ensures
        r@ == after_status_line(line@),
{
    match strip_line(line) {
        None => failed_malformed(),
        Some(content) => match read_status_line(content) {
            None => failed_malformed(),
            Some((status_code, status_text)) => {
                let headers: Vec<Header> = Vec::new();
                assert(header_models(headers@) =~= Seq::<HeaderModel>::empty());
                Exchange::AwaitingHeaders { status_code, status_text, headers }
            },
        },
    }
}

/// The state after a further line of the head.
fn on_header_line(status_code: u16, status_text: Vec<u8>, headers: Vec<Header>, line: &[u8]) -> (r:
    Exchange)
    ensures
        r@ == after_header_line(status_code, status_text@, header_models(headers@), line@),
{
    match strip_line(line) {
        None => failed_malformed(),
        Some(content) => if content.len() == 0 {
            match read_framing(&headers) {
                None => failed_malformed(),
                Some(framing) => Exchange::AwaitingBody {
                    status_code,
                    status_text,
                    headers,
                    framing,
                    body: Vec::new(),
                },
            }
        } else {
            match read_header_line(content) {
                None => failed_malformed(),
                Some(header) => {
                    let ghost before = header_models(headers@);
                    let ghost model = header@;
                    let mut headers = headers;
                    headers.push(header);
                    assert(header_models(headers@) =~= before.push(model));
                    Exchange::AwaitingHeaders { status_code, status_text, headers }
                },
            }
        },
    }
}

/// The state after bytes of the body.
fn on_body_bytes(
    status_code: u16,
    status_text: Vec<u8>,
    headers: Vec<Header>,
    framing: Framing,
    body: Vec<u8>,
    chunk: &[u8],
) -> (r: Exchange)
    ensures
        r@ == after_body_bytes(
            status_code,
            status_text@,
            header_models(headers@),
            framing,
            body@,
            chunk@,
        ),
{
    let ghost old_body = body@;
    let mut body = body;
    match framing {
        Framing::UntilClose => {
            body.extend_from_slice(chunk);
            assert(body@ =~= old_body + chunk@);
            Exchange::AwaitingBody { status_code, status_text, headers, framing, body }
        },
        Framing::ContentLength(n) => {
            let room: usize = if body.len() >= n {
                0
            } else {
                n - body.len()
            };
            if chunk.len() <= room {
                body.extend_from_slice(chunk);
                assert(body@ =~= old_body + chunk@);
            } else {
                body.extend_from_slice(slice_subrange(chunk, 0, room));
                assert(body@ =~= old_body + chunk@.subrange(0, room as int));
            }
            if body.len() >= n {
                Exchange::Complete(ResponseMessage { status_code, status_text, headers, body })
            } else {
                Exchange::AwaitingBody { status_code, status_text, headers, framing, body }
            }
        },
    }
}

/// The state after the peer closed while the body came.
fn on_close(
    status_code: u16,
    status_text: Vec<u8>,
    headers: Vec<Header>,
    framing: Framing,
    body: Vec<u8>,
) -> (r: Exchange)
    ensures
        r@ == after_close(status_code, status_text@, header_models(headers@), framing, body@),
{
    match framing {
        Framing::ContentLength(n) if body.len() < n => failed_malformed(),
        _ => Exchange::Complete(ResponseMessage { status_code, status_text, headers, body }),
    }
}

impl Exchange {
    /// An exchange on which nothing has happened yet.
    pub fn new() -> (r: Exchange)
        ensures
            r@ == ExchangeModel::Idle,
    {
        Exchange::Idle
    }

    /// The phase that the exchange is in.
    pub fn phase(&self) -> (r: Phase)
        ensures
            r == self@.phase(),
    {
        match self {
            Exchange::Idle => Phase::Idle,
            Exchange::Connected => Phase::Connected,
            Exchange::Sent => Phase::Sent,
            Exchange::AwaitingHeaders { .. } => Phase::AwaitingHeaders,
            Exchange::AwaitingBody { .. } => Phase::AwaitingBody,
            Exchange::Complete(_) => Phase::Complete,
            Exchange::Failed(_) => Phase::Failed,
        }
    }

    /// What the driver is to do next.
    pub fn pending(&self) -> (r: Action)
        ensures
            r == pending_action(self@),
    {
        match self {
            Exchange::Idle => Action::Connect,
            Exchange::Connected => Action::Send,
            Exchange::Sent => Action::ReadLine,
            Exchange::AwaitingHeaders { .. } => Action::ReadLine,
            Exchange::AwaitingBody { framing, body, .. } => match framing {
                Framing::UntilClose => Action::ReadChunk,
                Framing::ContentLength(n) => if body.len() >= *n {
                    Action::ReadBody(0)
                } else {
                    Action::ReadBody(*n - body.len())
                },
            },
            Exchange::Complete(_) => Action::Close,
            Exchange::Failed(_) => Action::Close,
        }
    }

    /// Takes the exchange one event further, and says what to do next.
    pub fn step(self, event: Event) -> (r: (Exchange, Action))
        ensures
            r.0@ == next_state(self@, event@),
            r.1 == pending_action(r.0@),
    {
        let next = match self {
            Exchange::Idle => match event {
                Event::Connected => Exchange::Connected,
                _ => Exchange::Failed(failure(true, &event)),
            },
            Exchange::Connected => match event {
                Event::Sent => Exchange::Sent,
                _ => Exchange::Failed(failure(false, &event)),
            },
            Exchange::Sent => match event {
                Event::Line(line) => on_status_line(line.as_slice()),
                Event::Closed => failed_malformed(),
                _ => Exchange::Failed(failure(false, &event)),
            },
            Exchange::AwaitingHeaders { status_code, status_text, headers } => match event {
                Event::Line(line) => on_header_line(
                    status_code,
                    status_text,
                    headers,
                    line.as_slice(),
                ),
                Event::Closed => failed_malformed(),
                _ => Exchange::Failed(failure(false, &event)),
            },
            Exchange::AwaitingBody { status_code, status_text, headers, framing, body } => {
                match event {
                    Event::Data(chunk) => on_body_bytes(
                        status_code,
                        status_text,
                        headers,
                        framing,
                        body,
                        chunk.as_slice(),
                    ),
                    Event::Closed => on_close(status_code, status_text, headers, framing, body),
                    _ => Exchange::Failed(failure(false, &event)),
                }
            },
            Exchange::Complete(response) => Exchange::Complete(response),
            Exchange::Failed(error) => Exchange::Failed(error),
        };
        let action = next.pending();
        (next, action)
    }
}

} // verus!
