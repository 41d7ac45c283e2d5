//! A minimal HTTP/1.1 client core: URL decomposition, request serialisation,
//! response parsing and the request/response exchange state machine.
//!
//! The library does no input or output. A program around it opens the socket
//! and moves the bytes; every decision lies here, with a contract.
//!
//! * [`url`]: [`url::parse_url`] cuts a URL into scheme, host, port and path.
//! * [`request`]: [`request::populate_request`] writes the bytes of a request.
//! * [`response`]: [`response::parse_response`] reads a response from bytes.
//! * [`exchange`]: [`exchange::Exchange`] carries one exchange from event to
//!   event.
//! * [`runs`]: the exchange and the parser find the same response in the same
//!   bytes.
//! * [`client`]: what a request attempt computes around the exchange.
//! * [`error`]: the ways in which a request can fail.
//! * [`ascii`], [`decimal`], [`scan`], [`text`]: bytes, numerals, searching
//!   and string slices.
//!
//! Texts are modelled by their bytes: a `&str` by its UTF-8 encoding, a
//! vector of bytes by its contents.

pub mod ascii;
pub mod client;
pub mod decimal;
pub mod error;
pub mod exchange;
pub mod request;
pub mod response;
pub mod runs;
pub mod scan;
pub mod text;
pub mod url;
