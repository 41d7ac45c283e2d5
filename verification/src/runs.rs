//! Whole runs of an exchange, and what they have to do with the parser of
//! whole responses.
//!
//! The exchange reads a response piece by piece; [`parse_message`] reads one
//! that has come in full. This module shows that both find the same response
//! in the same bytes.

use crate::ascii::crlf;
use crate::client::outcome_of;
use crate::error::{ClientError, ParseError};
use crate::exchange::{
    after_body_bytes, after_close, after_header_line, after_status_line, line_content, malformed,
    missing, next_state, EventModel, ExchangeModel,
};
use crate::response::{
    frame_body, framing_of, parse_header_block, parse_header_line, parse_message,
    parse_status_line, Framing, HeaderModel, ResponseModel,
};
use crate::scan::{find, lemma_find_first, lemma_find_from, occurs_at};
use vstd::prelude::*;

verus! {

/// The state that a run of events leads to.
pub open spec fn run(state: ExchangeModel, events: Seq<EventModel>) -> ExchangeModel
    decreases events.len(),
{
    if events.len() == 0 {
        state
    } else {
        run(next_state(state, events[0]), events.drop_first())
    }
}

/// The events that bring the lines of a head, one line each.
pub open spec fn line_events(lines: Seq<Seq<u8>>) -> Seq<EventModel> {
    Seq::new(lines.len(), |i: int| EventModel::Line(lines[i]))
}

/// The events that bring the bytes of a body, one chunk each.
pub open spec fn data_events(chunks: Seq<Seq<u8>>) -> Seq<EventModel> {
    Seq::new(chunks.len(), |i: int| EventModel::Data(chunks[i]))
}

/// A run of two parts is the run of the second part from where the first
/// part leads.
pub proof fn lemma_run_concat(state: ExchangeModel, first: Seq<EventModel>, second: Seq<EventModel>)
    ensures
        run(state, first + second) == run(run(state, first), second),
    decreases first.len(),
{
    if first.len() == 0 {
        assert(first + second =~= second);
    } else {
        assert((first + second).drop_first() =~= first.drop_first() + second);
        lemma_run_concat(next_state(state, first[0]), first.drop_first(), second);
    }
}

/// No run leaves a terminal state.
pub proof fn lemma_run_terminal(state: ExchangeModel, events: Seq<EventModel>)
    requires
        state.is_terminal(),
    ensures
        run(state, events) == state,
    decreases events.len(),
{
    if events.len() > 0 {
        lemma_run_terminal(state, events.drop_first());
    }
}

/// Where a line with its terminator is followed by more bytes, the first
/// line terminator of the whole is the one of that line.
pub proof fn lemma_first_line(line: Seq<u8>, tail: Seq<u8>)
    requires
        line_content(line) is Some,
    ensures
        ({
            let content = line_content(line).unwrap();
            let whole = line + tail;
            &&& find(whole, crlf()) == Some(content.len() as int)
            &&& whole.subrange(0, content.len() as int) == content
            &&& whole.subrange(content.len() as int + 2, whole.len() as int) == tail
        }),
{
    let content = line_content(line).unwrap();
    let whole = line + tail;
    let at = content.len() as int;
    lemma_find_from(line, crlf(), 0);
    assert(whole.subrange(at, at + 2) =~= line.subrange(at, at + 2));
    assert(crlf().len() == 2);
    assert(find(line, crlf()) == Some(at) && at + 2 == line.len());
    assert forall|j: int| 0 <= j < at implies !occurs_at(whole, crlf(), j) by {
        assert(!occurs_at(line, crlf(), j));
        assert(whole.subrange(j, j + 2) =~= line.subrange(j, j + 2));
    }
    lemma_find_first(whole, crlf(), at);
    assert(whole.subrange(0, at) =~= content);
    assert(whole.subrange(at + 2, whole.len() as int) =~= tail);
}

/// True for the lines of a header block as they arrive: each ends with its
/// only line terminator, the last one is blank, and no other is.
pub open spec fn is_header_lines(lines: Seq<Seq<u8>>) -> bool {
    &&& lines.len() > 0
    &&& forall|i: int| 0 <= i < lines.len() ==> line_content(#[trigger] lines[i]) is Some
    &&& forall|i: int|
        0 <= i < lines.len() ==> (line_content(#[trigger] lines[i]) == Some(Seq::<u8>::empty())
            <==> i == lines.len() - 1)
}

/// True for the lines of a head as they arrive: a first line that ends
/// with its only line terminator, and the lines of a header block.
pub open spec fn is_head(head: Seq<Seq<u8>>) -> bool {
    &&& head.len() > 0
    &&& line_content(head[0]) is Some
    &&& is_header_lines(head.drop_first())
}

/// The state in which the body is awaited after a head with these headers.
pub open spec fn awaiting_body(
    status_code: u16,
    status_text: Seq<u8>,
    headers: Seq<HeaderModel>,
) -> ExchangeModel {
    match framing_of(headers) {
        None => malformed(),
        Some(framing) => ExchangeModel::AwaitingBody {
            status_code,
            status_text,
            headers,
            framing,
            body: Seq::empty(),
        },
    }
}

/// Reading the lines of a header block one by one gives the headers that the
/// block as a whole holds, and fails where the block holds none.
pub proof fn lemma_header_lines(
    status_code: u16,
    status_text: Seq<u8>,
    seen: Seq<HeaderModel>,
    lines: Seq<Seq<u8>>,
    rest: Seq<u8>,
)
    requires
        is_header_lines(lines),
    ensures
        ({
            let state = ExchangeModel::AwaitingHeaders { status_code, status_text, headers: seen };
            match parse_header_block(lines.flatten() + rest) {
                None => run(state, line_events(lines)) == malformed(),
                Some((headers, after)) => after == rest && run(state, line_events(lines))
                    == awaiting_body(status_code, status_text, seen + headers),
            }
        }),
    decreases lines.len(),
{
    let state = ExchangeModel::AwaitingHeaders { status_code, status_text, headers: seen };
    let line = lines[0];
    let others = lines.drop_first();
    let tail = others.flatten() + rest;
    let content = line_content(line).unwrap();
    assert(lines.flatten() + rest =~= line + tail);
    lemma_first_line(line, tail);
    assert(line_events(lines).drop_first() =~= line_events(others));
    assert(line_events(lines)[0] == EventModel::Line(line));
    let next = after_header_line(status_code, status_text, seen, line);
    assert(run(state, line_events(lines)) == run(next, line_events(others)));
    if lines.len() == 1 {
        assert(content =~= Seq::<u8>::empty());
        assert(others.flatten() =~= Seq::<u8>::empty());
        assert(tail =~= rest);
        assert(seen + Seq::<HeaderModel>::empty() =~= seen);
    } else {
        assert(content.len() > 0) by {
            if content.len() == 0 {
                assert(content =~= Seq::<u8>::empty());
            }
        }
        assert(is_header_lines(others)) by {
            assert forall|i: int| 0 <= i < others.len() implies line_content(
                #[trigger] others[i],
            ) is Some by {
                assert(others[i] == lines[i + 1]);
            }
            assert forall|i: int| 0 <= i < others.len() implies (line_content(#[trigger] others[i])
                == Some(Seq::<u8>::empty()) <==> i == others.len() - 1) by {
                assert(others[i] == lines[i + 1]);
            }
        }
        match parse_header_line(content) {
            None => {
                lemma_run_terminal(next, line_events(others));
            },
            Some(header) => {
                lemma_header_lines(status_code, status_text, seen.push(header), others, rest);
                match parse_header_block(tail) {
                    None => {},
                    Some((headers, after)) => {
                        assert(seen.push(header) + headers =~= seen + (seq![header] + headers));
                    },
                }
            },
        }
    }
}

/// Reading the chunks of a body one by one, until the peer closes, gives
/// the body that the framing cuts from all of them together, and fails where
/// it cuts none.
pub proof fn lemma_body_chunks(
    status_code: u16,
    status_text: Seq<u8>,
    headers: Seq<HeaderModel>,
    framing: Framing,
    body: Seq<u8>,
    chunks: Seq<Seq<u8>>,
)
    requires
        framing matches Framing::ContentLength(n) ==> body.len() <= n,
    ensures
        ({
            let state = ExchangeModel::AwaitingBody {
                status_code,
                status_text,
                headers,
                framing,
                body,
            };
            run(state, data_events(chunks) + seq![EventModel::Closed]) == match frame_body(
                framing,
                body + chunks.flatten(),
            ) {
                Some(cut) => ExchangeModel::Complete(
                    ResponseModel { status_code, status_text, headers, body: cut },
                ),
                None => malformed(),
            }
        }),
    decreases chunks.len(),
{
    let state = ExchangeModel::AwaitingBody { status_code, status_text, headers, framing, body };
    let events = data_events(chunks) + seq![EventModel::Closed];
    if chunks.len() == 0 {
        assert(events =~= seq![EventModel::Closed]);
        assert(events.drop_first() =~= Seq::<EventModel>::empty());
        let closed = after_close(status_code, status_text, headers, framing, body);
        assert(run(closed, events.drop_first()) == closed);
        assert(run(state, events) == closed);
        assert(chunks.flatten() =~= Seq::<u8>::empty());
        assert(body + chunks.flatten() =~= body);
        assert(body.subrange(0, body.len() as int) =~= body);
    } else {
        let chunk = chunks[0];
        let others = chunks.drop_first();
        let later = data_events(others) + seq![EventModel::Closed];
        assert(events[0] == EventModel::Data(chunk));
        assert(events.drop_first() =~= later);
        let next = after_body_bytes(status_code, status_text, headers, framing, body, chunk);
        assert(run(state, events) == run(next, later));
        assert(body + chunks.flatten() =~= (body + chunk) + others.flatten());
        match framing {
            Framing::UntilClose => {
                lemma_body_chunks(status_code, status_text, headers, framing, body + chunk, others);
            },
            Framing::ContentLength(n) => {
                let room = missing(n, body.len());
                let grown = if chunk.len() <= room {
                    body + chunk
                } else {
                    body + chunk.subrange(0, room as int)
                };
                if grown.len() >= n {
                    lemma_run_terminal(next, later);
                    assert((body + chunks.flatten()).subrange(0, n as int) =~= grown);
                } else {
                    lemma_body_chunks(status_code, status_text, headers, framing, grown, others);
                }
            },
        }
    }
}

/// The exchange and the parser of whole responses agree. Where the head
/// arrives line by line and the body chunk by chunk until the peer closes,
/// the exchange ends with the response that the parser finds in all those
/// bytes together, and fails as malformed where the parser finds none.
pub proof fn lemma_exchange_agrees_with_parser(head: Seq<Seq<u8>>, chunks: Seq<Seq<u8>>)
    requires
        is_head(head),
    ensures
        outcome_of(
            run(
                ExchangeModel::Sent,
                line_events(head) + data_events(chunks) + seq![EventModel::Closed],
            ),
        ) == Some(
            match parse_message(head.flatten() + chunks.flatten()) {
                Some(response) => Ok::<ResponseModel, ClientError>(response),
                None => Err::<ResponseModel, ClientError>(
                    ClientError::Parse(ParseError::MalformedResponse),
                ),
            },
        ),
{
    let first = head[0];
    let lines = head.drop_first();
    let rest = chunks.flatten();
    let tail = lines.flatten() + rest;
    let later = data_events(chunks) + seq![EventModel::Closed];
    let events = line_events(head) + data_events(chunks) + seq![EventModel::Closed];
    assert(events =~= line_events(head) + later);
    lemma_run_concat(ExchangeModel::Sent, line_events(head), later);
    assert(head.flatten() + rest =~= first + tail);
    lemma_first_line(first, tail);
    assert(line_events(head)[0] == EventModel::Line(first));
    assert(line_events(head).drop_first() =~= line_events(lines));
    let started = after_status_line(first);
    assert(run(ExchangeModel::Sent, line_events(head)) == run(started, line_events(lines)));
    match parse_status_line(line_content(first).unwrap()) {
        None => {
            lemma_run_terminal(started, line_events(lines));
            lemma_run_terminal(started, later);
        },
        Some((status_code, status_text)) => {
            assert(Seq::<HeaderModel>::empty() + Seq::<HeaderModel>::empty() =~= Seq::<
                HeaderModel,
            >::empty());
            lemma_header_lines(status_code, status_text, Seq::empty(), lines, rest);
            match parse_header_block(tail) {
                None => {
                    lemma_run_terminal(malformed(), later);
                },
                Some((headers, after)) => {
                    assert(Seq::<HeaderModel>::empty() + headers =~= headers);
                    match framing_of(headers) {
                        None => {
                            lemma_run_terminal(malformed(), later);
                        },
                        Some(framing) => {
                            lemma_body_chunks(
                                status_code,
                                status_text,
                                headers,
                                framing,
                                Seq::empty(),
                                chunks,
                            );
                            assert(Seq::<u8>::empty() + rest =~= rest);
                        },
                    }
                },
            }
        },
    }
}

} // verus!
